//! Semantic versions: their syntax and their precedence.
//!
//! A version is `major.minor.patch`, optionally followed by `-` and a
//! dot-separated list of pre-release identifiers, optionally followed by `+`
//! and dot-separated build metadata. Build metadata takes no part in
//! precedence.

use vstd::prelude::*;
use crate::text::{chars_of, find_from, first_index, slice_of, split, split_on, views};

verus! {

/// Outcome of comparing the precedence of two versions.
#[derive(Clone, Copy, Debug, PartialEq, Eq, Structural)]
pub enum Precedence {
    Lower,
    Same,
    Higher,
}

/// A parsed version, as far as precedence reads it.
pub struct SemVer {
    pub major: nat,
    pub minor: nat,
    pub patch: nat,
    pub pre: Seq<Seq<char>>,
}

/// `c` is a decimal digit.
pub open spec fn is_digit(c: char) -> bool {
    '0' <= c <= '9'
}

/// `c` may stand in an identifier: a letter, a digit or a hyphen.
pub open spec fn is_ident_char(c: char) -> bool {
    is_digit(c) || ('a' <= c <= 'z') || ('A' <= c <= 'Z') || c == '-'
}

/// `s` holds digits only.
pub open spec fn all_digits(s: Seq<char>) -> bool {
    forall|i: int| 0 <= i < s.len() ==> is_digit(#[trigger] s[i])
}

/// `s` holds letters, digits and hyphens only.
pub open spec fn all_ident_chars(s: Seq<char>) -> bool {
    forall|i: int| 0 <= i < s.len() ==> is_ident_char(#[trigger] s[i])
}

/// A numeric identifier: digits, at least one, no leading zero unless the
/// identifier is `0` itself.
pub open spec fn is_numeric(s: Seq<char>) -> bool {
    &&& s.len() > 0
    &&& all_digits(s)
    &&& s.len() > 1 ==> s[0] != '0'
}

/// A pre-release identifier: letters, digits and hyphens, at least one; where
/// it is digits only, it is a numeric identifier.
pub open spec fn is_pre_id(s: Seq<char>) -> bool {
    &&& s.len() > 0
    &&& all_ident_chars(s)
    &&& all_digits(s) ==> is_numeric(s)
}

/// A build identifier: letters, digits and hyphens, at least one.
pub open spec fn is_build_id(s: Seq<char>) -> bool {
    &&& s.len() > 0
    &&& all_ident_chars(s)
}

/// Every item of `ids` is a pre-release identifier.
pub open spec fn all_pre_ids(ids: Seq<Seq<char>>) -> bool {
    forall|i: int| 0 <= i < ids.len() ==> is_pre_id(#[trigger] ids[i])
}

/// Every item of `ids` is a build identifier.
pub open spec fn all_build_ids(ids: Seq<Seq<char>>) -> bool {
    forall|i: int| 0 <= i < ids.len() ==> is_build_id(#[trigger] ids[i])
}

/// The number that a digit writes.
pub open spec fn digit_value(c: char) -> nat {
    (c as int - '0' as int) as nat
}

/// The number that a string of digits writes in base ten.
pub open spec fn decimal(s: Seq<char>) -> nat
    decreases s.len(),
{
    if s.len() == 0 {
        0
    } else {
        decimal(s.drop_last()) * 10 + digit_value(s.last())
    }
}

/// The version that `s` writes, if it writes one.
pub open spec fn parse_version(s: Seq<char>) -> Option<SemVer> {
    let plus = first_index(s, '+');
    let main = s.take(plus);
    let dash = first_index(main, '-');
    let nums = split(main.take(dash), '.');
    let pre = if dash < main.len() {
        split(main.skip(dash + 1), '.')
    } else {
        Seq::<Seq<char>>::empty()
    };
    let build_ok = plus < s.len() ==> all_build_ids(split(s.skip(plus + 1), '.'));
    if nums.len() == 3 && is_numeric(nums[0]) && is_numeric(nums[1]) && is_numeric(nums[2])
        && all_pre_ids(pre) && build_ok {
        Some(
            SemVer {
                major: decimal(nums[0]),
                minor: decimal(nums[1]),
                patch: decimal(nums[2]),
                pre,
            },
        )
    } else {
        None
    }
}

/// The outcome of the comparison in the other direction.
pub open spec fn flip(p: Precedence) -> Precedence {
    match p {
        Precedence::Lower => Precedence::Higher,
        Precedence::Same => Precedence::Same,
        Precedence::Higher => Precedence::Lower,
    }
}

/// `first`, unless it is `Same`; then `second`.
pub open spec fn then_by(first: Precedence, second: Precedence) -> Precedence {
    if first == Precedence::Same {
        second
    } else {
        first
    }
}

/// Order of two numbers.
pub open spec fn nat_order(a: nat, b: nat) -> Precedence {
    if a < b {
        Precedence::Lower
    } else if a == b {
        Precedence::Same
    } else {
        Precedence::Higher
    }
}

/// Order of two characters by their code.
pub open spec fn char_order(a: char, b: char) -> Precedence {
    if a < b {
        Precedence::Lower
    } else if a == b {
        Precedence::Same
    } else {
        Precedence::Higher
    }
}

/// Lexical order of two strings by character code; a proper prefix is lower.
pub open spec fn lex_order(a: Seq<char>, b: Seq<char>) -> Precedence
    decreases a.len(),
{
    if a.len() == 0 && b.len() == 0 {
        Precedence::Same
    } else if a.len() == 0 {
        Precedence::Lower
    } else if b.len() == 0 {
        Precedence::Higher
    } else {
        then_by(char_order(a[0], b[0]), lex_order(a.skip(1), b.skip(1)))
    }
}

/// Order of two pre-release identifiers: numeric ones by their number,
/// others lexically, and a numeric one below any other.
pub open spec fn id_order(a: Seq<char>, b: Seq<char>) -> Precedence {
    if all_digits(a) && all_digits(b) {
        nat_order(decimal(a), decimal(b))
    } else if all_digits(a) {
        Precedence::Lower
    } else if all_digits(b) {
        Precedence::Higher
    } else {
        lex_order(a, b)
    }
}

/// Order of two lists of pre-release identifiers, identifier by identifier;
/// a proper prefix is lower.
pub open spec fn ids_order(a: Seq<Seq<char>>, b: Seq<Seq<char>>) -> Precedence
    decreases a.len(),
{
    if a.len() == 0 && b.len() == 0 {
        Precedence::Same
    } else if a.len() == 0 {
        Precedence::Lower
    } else if b.len() == 0 {
        Precedence::Higher
    } else {
        then_by(id_order(a[0], b[0]), ids_order(a.skip(1), b.skip(1)))
    }
}

/// Order of the pre-release parts of two versions with equal cores: a version
/// without pre-release identifiers is above any version with some.
pub open spec fn pre_order(a: Seq<Seq<char>>, b: Seq<Seq<char>>) -> Precedence {
    if a.len() == 0 && b.len() == 0 {
        Precedence::Same
    } else if a.len() == 0 {
        Precedence::Higher
    } else if b.len() == 0 {
        Precedence::Lower
    } else {
        ids_order(a, b)
    }
}

/// Precedence of `a` relative to `b`.
pub open spec fn precedence(a: SemVer, b: SemVer) -> Precedence {
    then_by(
        nat_order(a.major, b.major),
        then_by(
            nat_order(a.minor, b.minor),
            then_by(nat_order(a.patch, b.patch), pre_order(a.pre, b.pre)),
        ),
    )
}

/// Whether three comparisons `a:b`, `b:c` and `a:c` fit a transitive order.
pub open spec fn chained(ab: Precedence, bc: Precedence, ac: Precedence) -> bool {
    &&& ab == Precedence::Same ==> ac == bc
    &&& bc == Precedence::Same ==> ac == ab
    &&& ab == bc ==> ac == ab
}

/// Lexical comparison in the other direction gives the opposite outcome.
pub proof fn lemma_lex_flip(a: Seq<char>, b: Seq<char>)
    ensures
        lex_order(b, a) == flip(lex_order(a, b)),
    decreases a.len(),
{
    if a.len() > 0 && b.len() > 0 {
        lemma_lex_flip(a.skip(1), b.skip(1));
    }
}

/// Two strings are lexically the same exactly if they are equal.
pub proof fn lemma_lex_same(a: Seq<char>, b: Seq<char>)
    ensures
        lex_order(a, b) == Precedence::Same <==> a == b,
    decreases a.len(),
{
    if a.len() > 0 && b.len() > 0 {
        lemma_lex_same(a.skip(1), b.skip(1));
        if lex_order(a, b) == Precedence::Same {
            assert(a[0] == b[0]);
            assert(a.skip(1) == b.skip(1));
            assert(a =~= seq![a[0]] + a.skip(1));
            assert(b =~= seq![b[0]] + b.skip(1));
            assert(a == b);
        }
        if a == b {
            assert(lex_order(a, b) == Precedence::Same);
        }
    } else if a.len() == 0 && b.len() == 0 {
        assert(a =~= b);
    }
}

/// Lexical order is transitive.
pub proof fn lemma_lex_chained(a: Seq<char>, b: Seq<char>, c: Seq<char>)
    ensures
        chained(lex_order(a, b), lex_order(b, c), lex_order(a, c)),
    decreases a.len(),
{
    if a.len() > 0 && b.len() > 0 && c.len() > 0 {
        lemma_lex_chained(a.skip(1), b.skip(1), c.skip(1));
    }
}

/// Two strings of digits of one length are ordered as numbers the way they
/// are ordered lexically.
pub proof fn lemma_decimal_same_length(a: Seq<char>, b: Seq<char>)
    requires
        all_digits(a),
        all_digits(b),
        a.len() == b.len(),
    ensures
        nat_order(decimal(a), decimal(b)) == lex_order(a, b),
    decreases a.len(),
{
    if a.len() > 0 {
        lemma_decimal_same_length(a.drop_last(), b.drop_last());
        lemma_lex_from_back(a, b);
        assert(is_digit(a.last()) && is_digit(b.last()));
    }
}

/// Lexical order of two strings of one length, read from the back.
pub proof fn lemma_lex_from_back(a: Seq<char>, b: Seq<char>)
    requires
        a.len() == b.len(),
        a.len() > 0,
    ensures
        lex_order(a, b) == then_by(
            lex_order(a.drop_last(), b.drop_last()),
            char_order(a.last(), b.last()),
        ),
    decreases a.len(),
{
    if a.len() == 1 {
        assert(a.skip(1).len() == 0 && b.skip(1).len() == 0);
        assert(a.drop_last().len() == 0 && b.drop_last().len() == 0);
    } else {
        lemma_lex_from_back(a.skip(1), b.skip(1));
        assert(a.skip(1).drop_last() =~= a.drop_last().skip(1));
        assert(b.skip(1).drop_last() =~= b.drop_last().skip(1));
        assert(a.drop_last()[0] == a[0] && b.drop_last()[0] == b[0]);
    }
}

/// A string of digits writes less than ten times what a string of the same
/// length without a leading zero writes.
pub proof fn lemma_decimal_below_tenfold(a: Seq<char>, c: Seq<char>)
    requires
        all_digits(a),
        all_digits(c),
        a.len() == c.len(),
        c.len() > 0,
        c[0] != '0',
    ensures
        decimal(a) < 10 * decimal(c),
        decimal(c) >= 1,
    decreases a.len(),
{
    assert(is_digit(a.last()) && is_digit(c.last()));
    if a.len() == 1 {
        assert(a.drop_last().len() == 0 && c.drop_last().len() == 0);
        assert(decimal(a.drop_last()) == 0 && decimal(c.drop_last()) == 0);
        assert(c.last() == c[0]);
    } else {
        assert(c.drop_last()[0] == c[0]);
        lemma_decimal_below_tenfold(a.drop_last(), c.drop_last());
    }
}

/// What a string of digits writes is at least what any of its prefixes writes.
pub proof fn lemma_decimal_prefix(s: Seq<char>, k: int)
    requires
        0 <= k <= s.len(),
    ensures
        decimal(s.take(k)) <= decimal(s),
    decreases s.len() - k,
{
    if k < s.len() {
        lemma_decimal_prefix(s, k + 1);
        assert(s.take(k + 1).drop_last() =~= s.take(k));
    } else {
        assert(s.take(k) =~= s);
    }
}

/// Of two numeric identifiers the shorter writes the smaller number.
pub proof fn lemma_decimal_shorter(a: Seq<char>, b: Seq<char>)
    requires
        is_numeric(a),
        is_numeric(b),
        a.len() < b.len(),
    ensures
        decimal(a) < decimal(b),
{
    let n = a.len() as int;
    let c = b.take(n);
    assert(c[0] == b[0]);
    assert(all_digits(c));
    lemma_decimal_below_tenfold(a, c);
    lemma_decimal_prefix(b, n + 1);
    assert(b.take(n + 1).drop_last() =~= c);
}

/// Order of two numeric identifiers, read off their digits: the shorter is
/// lower, and of two of one length the lexically lower.
pub open spec fn digits_order(a: Seq<char>, b: Seq<char>) -> Precedence {
    if a.len() < b.len() {
        Precedence::Lower
    } else if a.len() > b.len() {
        Precedence::Higher
    } else {
        lex_order(a, b)
    }
}

/// Two numeric identifiers are ordered as numbers the way their digits say.
pub proof fn lemma_digits_order(a: Seq<char>, b: Seq<char>)
    requires
        is_numeric(a),
        is_numeric(b),
    ensures
        nat_order(decimal(a), decimal(b)) == digits_order(a, b),
{
    if a.len() < b.len() {
        lemma_decimal_shorter(a, b);
    } else if a.len() > b.len() {
        lemma_decimal_shorter(b, a);
    } else {
        lemma_decimal_same_length(a, b);
    }
}

/// Comparing two identifiers in the other direction gives the opposite outcome.
pub proof fn lemma_id_flip(a: Seq<char>, b: Seq<char>)
    ensures
        id_order(b, a) == flip(id_order(a, b)),
{
    lemma_lex_flip(a, b);
}

/// The order of identifiers is transitive.
pub proof fn lemma_id_chained(a: Seq<char>, b: Seq<char>, c: Seq<char>)
    ensures
        chained(id_order(a, b), id_order(b, c), id_order(a, c)),
{
    lemma_lex_chained(a, b, c);
}

/// Comparing two lists of identifiers in the other direction gives the opposite
/// outcome.
pub proof fn lemma_ids_flip(a: Seq<Seq<char>>, b: Seq<Seq<char>>)
    ensures
        ids_order(b, a) == flip(ids_order(a, b)),
    decreases a.len(),
{
    if a.len() > 0 && b.len() > 0 {
        lemma_id_flip(a[0], b[0]);
        lemma_ids_flip(a.skip(1), b.skip(1));
    }
}

/// The order of lists of identifiers is transitive.
pub proof fn lemma_ids_chained(a: Seq<Seq<char>>, b: Seq<Seq<char>>, c: Seq<Seq<char>>)
    ensures
        chained(ids_order(a, b), ids_order(b, c), ids_order(a, c)),
    decreases a.len(),
{
    if a.len() > 0 && b.len() > 0 && c.len() > 0 {
        lemma_id_chained(a[0], b[0], c[0]);
        lemma_ids_chained(a.skip(1), b.skip(1), c.skip(1));
    }
}

/// A list of identifiers has the same precedence as itself.
pub proof fn lemma_ids_reflexive(a: Seq<Seq<char>>)
    ensures
        ids_order(a, a) == Precedence::Same,
    decreases a.len(),
{
    if a.len() > 0 {
        lemma_lex_same(a[0], a[0]);
        lemma_ids_reflexive(a.skip(1));
    }
}

/// A version has the same precedence as itself.
pub proof fn lemma_precedence_reflexive(a: SemVer)
    ensures
        precedence(a, a) == Precedence::Same,
{
    lemma_ids_reflexive(a.pre);
}

/// Comparing in the other direction gives the opposite outcome.
pub proof fn lemma_precedence_flip(a: SemVer, b: SemVer)
    ensures
        precedence(b, a) == flip(precedence(a, b)),
{
    lemma_ids_flip(a.pre, b.pre);
}

/// Precedence is transitive: two comparisons that point the same way, or of
/// which one is `Same`, decide the third.
pub proof fn lemma_precedence_chained(a: SemVer, b: SemVer, c: SemVer)
    ensures
        chained(precedence(a, b), precedence(b, c), precedence(a, c)),
{
    lemma_ids_chained(a.pre, b.pre, c.pre);
}

/// A pre-release version is lower than the release with the same core.
pub proof fn lemma_pre_release_is_lower(a: SemVer, b: SemVer)
    requires
        a.major == b.major,
        a.minor == b.minor,
        a.patch == b.patch,
        a.pre.len() > 0,
        b.pre.len() == 0,
    ensures
        precedence(a, b) == Precedence::Lower,
{
}

fn digit(c: char) -> (r: bool)
    ensures
        r == is_digit(c),
{
    '0' <= c && c <= '9'
}

fn ident_char(c: char) -> (r: bool)
    ensures
        r == is_ident_char(c),
{
    digit(c) || ('a' <= c && c <= 'z') || ('A' <= c && c <= 'Z') || c == '-'
}

fn check_all_digits(s: &Vec<char>) -> (r: bool)
    ensures
        r == all_digits(s@),
{
    let mut i: usize = 0;
    while i < s.len()
        invariant
            i <= s.len(),
            forall|j: int| 0 <= j < i ==> is_digit(#[trigger] s@[j]),
        decreases s.len() - i,
    {
        if !digit(s[i]) {
            return false;
        }
        i += 1;
    }
    true
}

fn check_all_ident_chars(s: &Vec<char>) -> (r: bool)
    ensures
        r == all_ident_chars(s@),
{
    let mut i: usize = 0;
    while i < s.len()
        invariant
            i <= s.len(),
            forall|j: int| 0 <= j < i ==> is_ident_char(#[trigger] s@[j]),
        decreases s.len() - i,
    {
        if !ident_char(s[i]) {
            return false;
        }
        i += 1;
    }
    true
}

fn check_numeric(s: &Vec<char>) -> (r: bool)
    ensures
        r == is_numeric(s@),
{
    s.len() > 0 && check_all_digits(s) && (s.len() == 1 || s[0] != '0')
}

fn check_pre_id(s: &Vec<char>) -> (r: bool)
    ensures
        r == is_pre_id(s@),
{
    s.len() > 0 && check_all_ident_chars(s) && (!check_all_digits(s) || check_numeric(s))
}

fn check_build_id(s: &Vec<char>) -> (r: bool)
    ensures
        r == is_build_id(s@),
{
    s.len() > 0 && check_all_ident_chars(s)
}

fn check_pre_ids(ids: &Vec<Vec<char>>) -> (r: bool)
    ensures
        r == all_pre_ids(views(ids@)),
{
    let mut i: usize = 0;
    while i < ids.len()
        invariant
            i <= ids.len(),
            forall|j: int| 0 <= j < i ==> is_pre_id(#[trigger] views(ids@)[j]),
        decreases ids.len() - i,
    {
        if !check_pre_id(&ids[i]) {
            assert(!is_pre_id(views(ids@)[i as int]));
            return false;
        }
        i += 1;
    }
    true
}

fn check_build_ids(ids: &Vec<Vec<char>>) -> (r: bool)
    ensures
        r == all_build_ids(views(ids@)),
{
    let mut i: usize = 0;
    while i < ids.len()
        invariant
            i <= ids.len(),
            forall|j: int| 0 <= j < i ==> is_build_id(#[trigger] views(ids@)[j]),
        decreases ids.len() - i,
    {
        if !check_build_id(&ids[i]) {
            assert(!is_build_id(views(ids@)[i as int]));
            return false;
        }
        i += 1;
    }
    true
}

fn order_lex(a: &Vec<char>, b: &Vec<char>) -> (r: Precedence)
    ensures
        r == lex_order(a@, b@),
{
    let mut i: usize = 0;
    assert(a@.skip(0) =~= a@ && b@.skip(0) =~= b@);
    while i < a.len() && i < b.len()
        invariant
            i <= a.len(),
            i <= b.len(),
            lex_order(a@, b@) == lex_order(a@.skip(i as int), b@.skip(i as int)),
        decreases a.len() - i,
    {
        let x = a[i];
        let y = b[i];
        assert(a@.skip(i as int)[0] == x && b@.skip(i as int)[0] == y);
        if x < y {
            return Precedence::Lower;
        }
        if x > y {
            return Precedence::Higher;
        }
        assert(a@.skip(i as int).skip(1) =~= a@.skip(i + 1));
        assert(b@.skip(i as int).skip(1) =~= b@.skip(i + 1));
        i += 1;
    }
    if i == a.len() && i == b.len() {
        Precedence::Same
    } else if i == a.len() {
        Precedence::Lower
    } else {
        Precedence::Higher
    }
}

fn order_numeric(a: &Vec<char>, b: &Vec<char>) -> (r: Precedence)
    requires
        is_numeric(a@),
        is_numeric(b@),
    ensures
        r == nat_order(decimal(a@), decimal(b@)),
{
    proof {
        lemma_digits_order(a@, b@);
    }
    if a.len() < b.len() {
        Precedence::Lower
    } else if a.len() > b.len() {
        Precedence::Higher
    } else {
        order_lex(a, b)
    }
}

fn order_id(a: &Vec<char>, b: &Vec<char>) -> (r: Precedence)
    requires
        is_pre_id(a@),
        is_pre_id(b@),
    ensures
        r == id_order(a@, b@),
{
    let a_numeric = check_all_digits(a);
    let b_numeric = check_all_digits(b);
    if a_numeric && b_numeric {
        order_numeric(a, b)
    } else if a_numeric {
        Precedence::Lower
    } else if b_numeric {
        Precedence::Higher
    } else {
        order_lex(a, b)
    }
}

fn order_ids(a: &Vec<Vec<char>>, b: &Vec<Vec<char>>) -> (r: Precedence)
    requires
        all_pre_ids(views(a@)),
        all_pre_ids(views(b@)),
    ensures
        r == ids_order(views(a@), views(b@)),
{
    let mut i: usize = 0;
    assert(views(a@).skip(0) =~= views(a@) && views(b@).skip(0) =~= views(b@));
    while i < a.len() && i < b.len()
        invariant
            i <= a.len(),
            i <= b.len(),
            all_pre_ids(views(a@)),
            all_pre_ids(views(b@)),
            ids_order(views(a@), views(b@)) == ids_order(
                views(a@).skip(i as int),
                views(b@).skip(i as int),
            ),
        decreases a.len() - i,
    {
        assert(views(a@).skip(i as int)[0] == a@[i as int]@);
        assert(views(b@).skip(i as int)[0] == b@[i as int]@);
        assert(is_pre_id(views(a@)[i as int]) && is_pre_id(views(b@)[i as int]));
        let o = order_id(&a[i], &b[i]);
        match o {
            Precedence::Same => {},
            _ => {
                return o;
            },
        }
        assert(views(a@).skip(i as int).skip(1) =~= views(a@).skip(i + 1));
        assert(views(b@).skip(i as int).skip(1) =~= views(b@).skip(i + 1));
        i += 1;
    }
    if i == a.len() && i == b.len() {
        Precedence::Same
    } else if i == a.len() {
        Precedence::Lower
    } else {
        Precedence::Higher
    }
}

/// A version, parsed and held for comparison.
pub struct Version {
    major: Vec<char>,
    minor: Vec<char>,
    patch: Vec<char>,
    pre: Vec<Vec<char>>,
}

impl View for Version {
    type V = SemVer;

    closed spec fn view(&self) -> SemVer {
        SemVer {
            major: decimal(self.major@),
            minor: decimal(self.minor@),
            patch: decimal(self.patch@),
            pre: views(self.pre@),
        }
    }
}

impl Version {
    #[verifier::type_invariant]
    spec fn well_formed(&self) -> bool {
        &&& is_numeric(self.major@)
        &&& is_numeric(self.minor@)
        &&& is_numeric(self.patch@)
        &&& all_pre_ids(views(self.pre@))
    }

    /// Reads a version; `None` where `s` does not write one.
    pub fn parse(s: &str) -> (r: Option<Version>)
        ensures
            match r {
                Some(v) => parse_version(s@) == Some(v@),
                None => parse_version(s@) is None,
            },
    {
        let chars = chars_of(s);
        Version::parse_chars(&chars)
    }

    /// Reads a version from its characters; `None` where they write none.
    pub fn parse_chars(chars: &Vec<char>) -> (r: Option<Version>)
        ensures
            match r {
                Some(v) => parse_version(chars@) == Some(v@),
                None => parse_version(chars@) is None,
            },
    {
        assert(chars@.skip(0) =~= chars@);
        let plus = find_from(&chars, 0, '+');
        let main = slice_of(&chars, 0, plus);
        assert(main@ =~= chars@.take(plus as int));
        if plus < chars.len() {
            let build = slice_of(&chars, plus + 1, chars.len());
            assert(build@ =~= chars@.skip(plus + 1));
            let build_ids = split_on(&build, '.');
            if !check_build_ids(&build_ids) {
                return None;
            }
        }
        assert(main@.skip(0) =~= main@);
        let dash = find_from(&main, 0, '-');
        let core = slice_of(&main, 0, dash);
        assert(core@ =~= main@.take(dash as int));
        let nums = split_on(&core, '.');
        let pre = if dash < main.len() {
            let text = slice_of(&main, dash + 1, main.len());
            assert(text@ =~= main@.skip(dash + 1));
            split_on(&text, '.')
        } else {
            let none: Vec<Vec<char>> = Vec::new();
            assert(views(none@) =~= Seq::<Seq<char>>::empty());
            none
        };
        if nums.len() != 3 {
            return None;
        }
        assert(views(nums@)[0] == nums@[0]@ && views(nums@)[1] == nums@[1]@ && views(nums@)[2]
            == nums@[2]@);
        if !check_numeric(&nums[0]) || !check_numeric(&nums[1]) || !check_numeric(&nums[2]) {
            return None;
        }
        if !check_pre_ids(&pre) {
            return None;
        }
        let major = slice_of(&nums[0], 0, nums[0].len());
        let minor = slice_of(&nums[1], 0, nums[1].len());
        let patch = slice_of(&nums[2], 0, nums[2].len());
        assert(major@ =~= nums@[0]@ && minor@ =~= nums@[1]@ && patch@ =~= nums@[2]@);
        Some(Version { major, minor, patch, pre })
    }

    /// Precedence of this version relative to `other`.
    pub fn precedence(&self, other: &Version) -> (r: Precedence)
        ensures
            r == precedence(self@, other@),
    {
        proof {
            use_type_invariant(self);
            use_type_invariant(other);
        }
        let major = order_numeric(&self.major, &other.major);
        match major {
            Precedence::Same => {},
            _ => {
                return major;
            },
        }
        let minor = order_numeric(&self.minor, &other.minor);
        match minor {
            Precedence::Same => {},
            _ => {
                return minor;
            },
        }
        let patch = order_numeric(&self.patch, &other.patch);
        match patch {
            Precedence::Same => {},
            _ => {
                return patch;
            },
        }
        if self.pre.len() == 0 && other.pre.len() == 0 {
            Precedence::Same
        } else if self.pre.len() == 0 {
            Precedence::Higher
        } else if other.pre.len() == 0 {
            Precedence::Lower
        } else {
            order_ids(&self.pre, &other.pre)
        }
    }
}

/// Precedence of the version that `a` writes relative to the one that `b`
/// writes; `None` where either writes no version.
pub fn compare_versions(a: &str, b: &str) -> (r: Option<Precedence>)
    ensures
        r == version_order(a@, b@),
{
    match Version::parse(a) {
        Some(x) => match Version::parse(b) {
            Some(y) => Some(x.precedence(&y)),
            None => None,
        },
        None => None,
    }
}

/// Precedence of the version that `a` writes relative to the one that `b`
/// writes; `None` where either writes no version.
pub open spec fn version_order(a: Seq<char>, b: Seq<char>) -> Option<Precedence> {
    match (parse_version(a), parse_version(b)) {
        (Some(x), Some(y)) => Some(precedence(x, y)),
        _ => None,
    }
}

/// `a` and `b` both write versions, and the one of `a` is the lower.
pub open spec fn is_older(a: Seq<char>, b: Seq<char>) -> bool {
    version_order(a, b) == Some(Precedence::Lower)
}

} // verus!
