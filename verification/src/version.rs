//! Semantic versions: the mathematical ordering used to rank chart
//! versions, the trusted parser around the `semver` crate, and the
//! newest-first sorting of a repository's chart entries.
//!
//! The ordering below states, over plain byte sequences, exactly the total
//! order that `semver` gives `Version`: major, minor and patch numerically,
//! then pre-release precedence (numeric identifiers by value, numeric
//! before alphanumeric, alphanumeric in ASCII order, fewer identifiers
//! first), then build metadata as a tie-break.

use vstd::multiset::Multiset;
use vstd::prelude::*;
use vstd::slice::*;

verus! {

broadcast use {
    vstd::seq_lib::group_to_multiset_ensures,
    vstd::multiset::group_multiset_axioms,
};

/// A three-way comparison outcome.
#[derive(Clone, Copy, PartialEq, Eq, Structural, Debug)]
pub enum Cmp {
    Lt,
    Eq,
    Gt,
}

/// The outcome of comparing the other way round.
pub open spec fn flip_cmp(c: Cmp) -> Cmp {
    match c {
        Cmp::Lt => Cmp::Gt,
        Cmp::Eq => Cmp::Eq,
        Cmp::Gt => Cmp::Lt,
    }
}

/// Chain two comparisons: the second decides only on a tie.
pub open spec fn then_cmp(c1: Cmp, c2: Cmp) -> Cmp {
    if c1 == Cmp::Eq {
        c2
    } else {
        c1
    }
}

/// Numeric comparison as a `Cmp`.
pub open spec fn cmp_int(a: int, b: int) -> Cmp {
    if a < b {
        Cmp::Lt
    } else if a > b {
        Cmp::Gt
    } else {
        Cmp::Eq
    }
}

/// The byte of an ASCII dot.
pub const DOT: u8 = 46;

/// The byte of an ASCII zero digit.
pub const DIGIT_ZERO: u8 = 48;

/// Whether `b` is an ASCII digit.
pub open spec fn is_digit(b: u8) -> bool {
    DIGIT_ZERO <= b <= 57
}

/// Whether every byte of `s` is an ASCII digit.
pub open spec fn is_numeric(s: Seq<u8>) -> bool {
    forall|i: int| 0 <= i < s.len() ==> is_digit(#[trigger] s[i])
}

/// Plain lexicographic byte order: first difference decides, else the
/// shorter sequence comes first.
pub open spec fn cmp_lex(a: Seq<u8>, b: Seq<u8>) -> Cmp
    decreases a.len(),
{
    if a.len() == 0 && b.len() == 0 {
        Cmp::Eq
    } else if a.len() == 0 {
        Cmp::Lt
    } else if b.len() == 0 {
        Cmp::Gt
    } else if a[0] < b[0] {
        Cmp::Lt
    } else if a[0] > b[0] {
        Cmp::Gt
    } else {
        cmp_lex(a.drop_first(), b.drop_first())
    }
}

/// `s` without its leading zero digits.
pub open spec fn trim_zeros(s: Seq<u8>) -> Seq<u8>
    decreases s.len(),
{
    if s.len() > 0 && s[0] == DIGIT_ZERO {
        trim_zeros(s.drop_first())
    } else {
        s
    }
}

/// Numeric pre-release identifiers hold no leading zeros, so value order
/// is length order broken by lexicographic order.
pub open spec fn cmp_num_pre(a: Seq<u8>, b: Seq<u8>) -> Cmp {
    then_cmp(cmp_int(a.len() as int, b.len() as int), cmp_lex(a, b))
}

/// Numeric build identifiers may hold leading zeros: value order on the
/// trimmed digits, then more leading zeros last.
pub open spec fn cmp_num_build(a: Seq<u8>, b: Seq<u8>) -> Cmp {
    then_cmp(
        cmp_int(trim_zeros(a).len() as int, trim_zeros(b).len() as int),
        then_cmp(
            cmp_lex(trim_zeros(a), trim_zeros(b)),
            cmp_int(a.len() as int, b.len() as int),
        ),
    )
}

/// One dot-separated identifier against another: numeric ones by value,
/// numeric before alphanumeric, alphanumeric in ASCII order.
pub open spec fn cmp_id(a: Seq<u8>, b: Seq<u8>, build: bool) -> Cmp {
    if is_numeric(a) && is_numeric(b) {
        if build {
            cmp_num_build(a, b)
        } else {
            cmp_num_pre(a, b)
        }
    } else if is_numeric(a) {
        Cmp::Lt
    } else if is_numeric(b) {
        Cmp::Gt
    } else {
        cmp_lex(a, b)
    }
}

/// Identifier lists: first differing identifier decides, else the shorter
/// list comes first.
pub open spec fn cmp_ids(a: Seq<Seq<u8>>, b: Seq<Seq<u8>>, build: bool) -> Cmp
    decreases a.len(),
{
    if a.len() == 0 && b.len() == 0 {
        Cmp::Eq
    } else if a.len() == 0 {
        Cmp::Lt
    } else if b.len() == 0 {
        Cmp::Gt
    } else {
        let c = cmp_id(a[0], b[0], build);
        if c == Cmp::Eq {
            cmp_ids(a.drop_first(), b.drop_first(), build)
        } else {
            c
        }
    }
}

/// Position of the first dot of `s`, or `s.len()` when there is none.
pub open spec fn find_dot(s: Seq<u8>) -> int
    decreases s.len(),
{
    if s.len() == 0 {
        0
    } else if s[0] == DOT {
        0
    } else {
        1 + find_dot(s.drop_first())
    }
}

/// `find_dot` stays within `s` and answers with a dot, nothing earlier
/// being one.
pub proof fn lemma_find_dot_props(s: Seq<u8>)
    ensures
        0 <= find_dot(s) <= s.len(),
        find_dot(s) < s.len() ==> s[find_dot(s)] == DOT,
        forall|j: int| 0 <= j < find_dot(s) ==> s[j] != DOT,
    decreases s.len(),
{
    if s.len() > 0 && s[0] != DOT {
        lemma_find_dot_props(s.drop_first());
        assert(forall|j: int| 1 <= j < s.len() ==> s[j] == s.drop_first()[j - 1]);
    }
}

/// The dot-separated identifiers of `s`; the empty sequence gives one
/// empty identifier.
pub open spec fn split_ids(s: Seq<u8>) -> Seq<Seq<u8>>
    decreases s.len(),
    via split_ids_decreases
{
    let d = find_dot(s);
    if d == s.len() {
        seq![s]
    } else {
        seq![s.subrange(0, d)] + split_ids(s.skip(d + 1))
    }
}

#[via_fn]
proof fn split_ids_decreases(s: Seq<u8>) {
    lemma_find_dot_props(s);
}

/// Pre-release order: no pre-release outranks any pre-release, otherwise
/// the identifier lists decide.
pub open spec fn cmp_pre(a: Seq<u8>, b: Seq<u8>) -> Cmp {
    if a.len() == 0 && b.len() == 0 {
        Cmp::Eq
    } else if a.len() == 0 {
        Cmp::Gt
    } else if b.len() == 0 {
        Cmp::Lt
    } else {
        cmp_ids(split_ids(a), split_ids(b), false)
    }
}

/// Build-metadata order, the final tie-break of the total order.
pub open spec fn cmp_build(a: Seq<u8>, b: Seq<u8>) -> Cmp {
    cmp_ids(split_ids(a), split_ids(b), true)
}

/// The abstract value of a parsed semantic version.
pub ghost struct VersionKey {
    pub major: int,
    pub minor: int,
    pub patch: int,
    pub pre: Seq<u8>,
    pub build: Seq<u8>,
}

/// The total order on parsed versions.
pub open spec fn cmp_key(a: VersionKey, b: VersionKey) -> Cmp {
    then_cmp(
        cmp_int(a.major, b.major),
        then_cmp(
            cmp_int(a.minor, b.minor),
            then_cmp(
                cmp_int(a.patch, b.patch),
                then_cmp(cmp_pre(a.pre, b.pre), cmp_build(a.build, b.build)),
            ),
        ),
    )
}

/// `a` ranks at least as high as `b`.
pub open spec fn key_ge(a: VersionKey, b: VersionKey) -> bool {
    cmp_key(a, b) != Cmp::Lt
}

/// Lexicographic order: a tie means equal sequences, and swapping the
/// sides flips the outcome.
proof fn lemma_cmp_lex_props(a: Seq<u8>, b: Seq<u8>)
    ensures
        cmp_lex(a, b) == Cmp::Eq ==> a == b,
        cmp_lex(b, a) == flip_cmp(cmp_lex(a, b)),
    decreases a.len() + b.len(),
{
    if a.len() > 0 && b.len() > 0 && a[0] == b[0] {
        lemma_cmp_lex_props(a.drop_first(), b.drop_first());
        if cmp_lex(a, b) == Cmp::Eq {
            assert(a =~= seq![a[0]] + a.drop_first());
            assert(b =~= seq![b[0]] + b.drop_first());
        }
    }
}

/// Lexicographic order is transitive.
proof fn lemma_cmp_lex_trans(a: Seq<u8>, b: Seq<u8>, c: Seq<u8>)
    requires
        cmp_lex(a, b) == Cmp::Lt,
        cmp_lex(b, c) == Cmp::Lt,
    ensures
        cmp_lex(a, c) == Cmp::Lt,
    decreases a.len() + b.len() + c.len(),
{
    if a.len() > 0 && b.len() > 0 && c.len() > 0 && a[0] == b[0] && b[0] == c[0] {
        lemma_cmp_lex_trans(a.drop_first(), b.drop_first(), c.drop_first());
    }
}

/// The trimmed digits are a suffix; everything before them is a zero.
proof fn lemma_trim_zeros_props(s: Seq<u8>)
    ensures
        trim_zeros(s).len() <= s.len(),
        trim_zeros(s) == s.skip(s.len() - trim_zeros(s).len()),
        forall|j: int| 0 <= j < s.len() - trim_zeros(s).len() ==> s[j] == DIGIT_ZERO,
    decreases s.len(),
{
    if s.len() > 0 && s[0] == DIGIT_ZERO {
        lemma_trim_zeros_props(s.drop_first());
        assert(s.drop_first().skip(
            s.drop_first().len() - trim_zeros(s.drop_first()).len(),
        ) =~= s.skip(s.len() - trim_zeros(s).len()));
        assert(forall|j: int| 1 <= j < s.len() ==> s[j] == s.drop_first()[j - 1]);
    } else {
        assert(trim_zeros(s) =~= s.skip(0));
    }
}

/// One identifier against another: a tie means equal identifiers, and
/// swapping the sides flips the outcome.
proof fn lemma_cmp_id_props(a: Seq<u8>, b: Seq<u8>, build: bool)
    ensures
        cmp_id(a, b, build) == Cmp::Eq ==> a == b,
        cmp_id(b, a, build) == flip_cmp(cmp_id(a, b, build)),
{
    lemma_cmp_lex_props(a, b);
    lemma_cmp_lex_props(trim_zeros(a), trim_zeros(b));
    if cmp_id(a, b, build) == Cmp::Eq && is_numeric(a) && is_numeric(b) && build {
        lemma_trim_zeros_props(a);
        lemma_trim_zeros_props(b);
        assert(trim_zeros(a) == trim_zeros(b));
        assert(a.len() == b.len());
        assert forall|j: int| 0 <= j < a.len() implies a[j] == b[j] by {
            if j < a.len() - trim_zeros(a).len() {
                assert(a[j] == DIGIT_ZERO);
                assert(b[j] == DIGIT_ZERO);
            } else {
                assert(a[j] == a.skip(a.len() - trim_zeros(a).len())[j - (a.len()
                    - trim_zeros(a).len())]);
                assert(b[j] == b.skip(b.len() - trim_zeros(b).len())[j - (b.len()
                    - trim_zeros(b).len())]);
            }
        }
        assert(a =~= b);
    }
}

/// The identifier order is transitive.
proof fn lemma_cmp_id_trans(a: Seq<u8>, b: Seq<u8>, c: Seq<u8>, build: bool)
    requires
        cmp_id(a, b, build) == Cmp::Lt,
        cmp_id(b, c, build) == Cmp::Lt,
    ensures
        cmp_id(a, c, build) == Cmp::Lt,
{
    if is_numeric(a) && is_numeric(b) && is_numeric(c) {
        if cmp_lex(a, b) == Cmp::Lt && cmp_lex(b, c) == Cmp::Lt {
            lemma_cmp_lex_trans(a, b, c);
        }
        lemma_cmp_lex_props(a, b);
        lemma_cmp_lex_props(b, c);
        if build {
            if cmp_lex(trim_zeros(a), trim_zeros(b)) == Cmp::Lt && cmp_lex(
                trim_zeros(b),
                trim_zeros(c),
            ) == Cmp::Lt {
                lemma_cmp_lex_trans(trim_zeros(a), trim_zeros(b), trim_zeros(c));
            }
            lemma_cmp_lex_props(trim_zeros(a), trim_zeros(b));
            lemma_cmp_lex_props(trim_zeros(b), trim_zeros(c));
        }
    } else if !is_numeric(a) && !is_numeric(b) && !is_numeric(c) {
        lemma_cmp_lex_trans(a, b, c);
    }
}

/// Identifier lists: a tie means equal lists, and swapping the sides
/// flips the outcome.
proof fn lemma_cmp_ids_props(a: Seq<Seq<u8>>, b: Seq<Seq<u8>>, build: bool)
    ensures
        cmp_ids(a, b, build) == Cmp::Eq ==> a == b,
        cmp_ids(b, a, build) == flip_cmp(cmp_ids(a, b, build)),
    decreases a.len() + b.len(),
{
    if a.len() > 0 && b.len() > 0 {
        lemma_cmp_id_props(a[0], b[0], build);
        if cmp_id(a[0], b[0], build) == Cmp::Eq {
            lemma_cmp_ids_props(a.drop_first(), b.drop_first(), build);
            if cmp_ids(a, b, build) == Cmp::Eq {
                assert(a =~= seq![a[0]] + a.drop_first());
                assert(b =~= seq![b[0]] + b.drop_first());
            }
        }
    }
}

/// The identifier-list order is transitive.
proof fn lemma_cmp_ids_trans(a: Seq<Seq<u8>>, b: Seq<Seq<u8>>, c: Seq<Seq<u8>>, build: bool)
    requires
        cmp_ids(a, b, build) == Cmp::Lt,
        cmp_ids(b, c, build) == Cmp::Lt,
    ensures
        cmp_ids(a, c, build) == Cmp::Lt,
    decreases a.len() + b.len() + c.len(),
{
    if a.len() > 0 && b.len() > 0 && c.len() > 0 {
        lemma_cmp_id_props(a[0], b[0], build);
        lemma_cmp_id_props(b[0], c[0], build);
        if cmp_id(a[0], b[0], build) == Cmp::Eq && cmp_id(b[0], c[0], build) == Cmp::Eq {
            lemma_cmp_ids_trans(a.drop_first(), b.drop_first(), c.drop_first(), build);
        } else if cmp_id(a[0], b[0], build) == Cmp::Lt && cmp_id(b[0], c[0], build) == Cmp::Lt {
            lemma_cmp_id_trans(a[0], b[0], c[0], build);
        }
    }
}

/// The identifiers written with dots between them.
pub open spec fn join_ids(ids: Seq<Seq<u8>>) -> Seq<u8>
    decreases ids.len(),
{
    if ids.len() == 0 {
        Seq::empty()
    } else if ids.len() == 1 {
        ids[0]
    } else {
        ids[0] + seq![DOT] + join_ids(ids.drop_first())
    }
}

/// Splitting and rejoining gives the sequence back, so equal identifier
/// lists can only come from equal sequences.
proof fn lemma_split_join(s: Seq<u8>)
    ensures
        join_ids(split_ids(s)) == s,
    decreases s.len(),
{
    lemma_find_dot_props(s);
    let d = find_dot(s);
    if d == s.len() {
    } else {
        lemma_split_join(s.skip(d + 1));
        lemma_split_ids_len(s.skip(d + 1));
        let ids = split_ids(s);
        assert(ids == seq![s.subrange(0, d)] + split_ids(s.skip(d + 1)));
        assert(ids.len() >= 2);
        assert(ids[0] == s.subrange(0, d));
        assert(ids.drop_first() =~= split_ids(s.skip(d + 1)));
        assert(join_ids(ids) == ids[0] + seq![DOT] + join_ids(ids.drop_first()));
        assert(s.subrange(0, d) + seq![DOT] + s.skip(d + 1) =~= s);
    }
}

/// A split always yields at least one identifier.
proof fn lemma_split_ids_len(s: Seq<u8>)
    ensures
        split_ids(s).len() >= 1,
{
    lemma_find_dot_props(s);
}

/// Pre-release order: a tie means equal sequences, and swapping the
/// sides flips the outcome.
proof fn lemma_cmp_pre_props(a: Seq<u8>, b: Seq<u8>)
    ensures
        cmp_pre(a, b) == Cmp::Eq ==> a == b,
        cmp_pre(b, a) == flip_cmp(cmp_pre(a, b)),
{
    lemma_cmp_ids_props(split_ids(a), split_ids(b), false);
    if cmp_pre(a, b) == Cmp::Eq && a.len() > 0 && b.len() > 0 {
        lemma_split_join(a);
        lemma_split_join(b);
    }
}

/// The pre-release order is transitive.
proof fn lemma_cmp_pre_trans(a: Seq<u8>, b: Seq<u8>, c: Seq<u8>)
    requires
        cmp_pre(a, b) == Cmp::Lt,
        cmp_pre(b, c) == Cmp::Lt,
    ensures
        cmp_pre(a, c) == Cmp::Lt,
{
    if a.len() > 0 && b.len() > 0 && c.len() > 0 {
        lemma_cmp_ids_trans(split_ids(a), split_ids(b), split_ids(c), false);
    }
}

/// Build-metadata order: a tie means equal sequences, and swapping the
/// sides flips the outcome.
proof fn lemma_cmp_build_props(a: Seq<u8>, b: Seq<u8>)
    ensures
        cmp_build(a, b) == Cmp::Eq ==> a == b,
        cmp_build(b, a) == flip_cmp(cmp_build(a, b)),
{
    lemma_cmp_ids_props(split_ids(a), split_ids(b), true);
    if cmp_build(a, b) == Cmp::Eq {
        lemma_split_join(a);
        lemma_split_join(b);
    }
}

/// The build-metadata order is transitive.
proof fn lemma_cmp_build_trans(a: Seq<u8>, b: Seq<u8>, c: Seq<u8>)
    requires
        cmp_build(a, b) == Cmp::Lt,
        cmp_build(b, c) == Cmp::Lt,
    ensures
        cmp_build(a, c) == Cmp::Lt,
{
    lemma_cmp_ids_trans(split_ids(a), split_ids(b), split_ids(c), true);
}

/// The version order: a tie means equal keys, and swapping the sides
/// flips the outcome.
pub proof fn lemma_cmp_key_props(a: VersionKey, b: VersionKey)
    ensures
        cmp_key(a, b) == Cmp::Eq ==> a == b,
        cmp_key(b, a) == flip_cmp(cmp_key(a, b)),
{
    lemma_cmp_pre_props(a.pre, b.pre);
    lemma_cmp_build_props(a.build, b.build);
}

/// The version order is transitive on its strict part.
pub proof fn lemma_cmp_key_trans(a: VersionKey, b: VersionKey, c: VersionKey)
    requires
        cmp_key(a, b) == Cmp::Lt,
        cmp_key(b, c) == Cmp::Lt,
    ensures
        cmp_key(a, c) == Cmp::Lt,
{
    lemma_cmp_pre_props(a.pre, b.pre);
    lemma_cmp_pre_props(b.pre, c.pre);
    lemma_cmp_build_props(a.build, b.build);
    lemma_cmp_build_props(b.build, c.build);
    if cmp_pre(a.pre, b.pre) == Cmp::Lt && cmp_pre(b.pre, c.pre) == Cmp::Lt {
        lemma_cmp_pre_trans(a.pre, b.pre, c.pre);
    }
    if cmp_build(a.build, b.build) == Cmp::Lt && cmp_build(b.build, c.build) == Cmp::Lt {
        lemma_cmp_build_trans(a.build, b.build, c.build);
    }
}

/// `key_ge` is transitive, which makes "sorted newest first" carry from
/// neighbour to neighbour.
pub proof fn lemma_key_ge_trans(a: VersionKey, b: VersionKey, c: VersionKey)
    requires
        key_ge(a, b),
        key_ge(b, c),
    ensures
        key_ge(a, c),
{
    lemma_cmp_key_props(a, b);
    lemma_cmp_key_props(b, c);
    lemma_cmp_key_props(a, c);
    if cmp_key(a, b) == Cmp::Gt && cmp_key(b, c) == Cmp::Gt {
        lemma_cmp_key_trans(c, b, a);
    }
}

/// One chart-entry version: the text as the index listed it, and the
/// parsed fields that order it.
pub struct VersionEntry {
    pub text: String,
    pub major: u64,
    pub minor: u64,
    pub patch: u64,
    pub pre: Vec<u8>,
    pub build: Vec<u8>,
}

impl View for VersionEntry {
    type V = VersionKey;

    open spec fn view(&self) -> VersionKey {
        VersionKey {
            major: self.major as int,
            minor: self.minor as int,
            patch: self.patch as int,
            pre: self.pre@,
            build: self.build@,
        }
    }
}

/// What parsing a version string yields: nothing for an invalid string,
/// else the parsed fields.  The outcome depends on the characters alone.
pub uninterp spec fn parsed_semver(s: Seq<char>) -> Option<VersionKey>;

/// Relies on `semver::Version::parse`: it accepts exactly the valid
/// semantic-version strings and splits one into major, minor, patch,
/// pre-release and build metadata, all functions of the characters alone.
#[verifier::external_body]
fn parse_version(text: &String) -> (r: Option<VersionEntry>)
    ensures
        r is Some <==> parsed_semver(text@) is Some,
        r is Some ==> (r->Some_0)@ == parsed_semver(text@)->Some_0,
        r is Some ==> (r->Some_0).text@ == text@,
{
    match semver::Version::parse(text.as_str()) {
        Ok(v) => Some(VersionEntry {
            text: text.clone(),
            major: v.major,
            minor: v.minor,
            patch: v.patch,
            pre: v.pre.as_str().as_bytes().to_vec(),
            build: v.build.as_str().as_bytes().to_vec(),
        }),
        Err(_) => None,
    }
}

/// Lexicographic comparison of the suffixes `a[ai..]` and `b[bi..]`.
fn cmp_lex_from(a: &Vec<u8>, b: &Vec<u8>, ai: usize, bi: usize) -> (r: Cmp)
    requires
        ai <= a@.len(),
        bi <= b@.len(),
    ensures
        r == cmp_lex(a@.skip(ai as int), b@.skip(bi as int)),
{
    let an = a.len();
    let bn = b.len();
    let mut i: usize = 0;
    loop
        invariant
            an == a@.len(),
            bn == b@.len(),
            ai + i <= an,
            bi + i <= bn,
            cmp_lex(a@.skip(ai as int), b@.skip(bi as int)) == cmp_lex(
                a@.skip(ai + i),
                b@.skip(bi + i),
            ),
        decreases a@.len() - ai - i,
    {
        if ai + i == an && bi + i == bn {
            return Cmp::Eq;
        }
        if ai + i == an {
            return Cmp::Lt;
        }
        if bi + i == bn {
            return Cmp::Gt;
        }
        let x = a[ai + i];
        let y = b[bi + i];
        if x < y {
            return Cmp::Lt;
        }
        if x > y {
            return Cmp::Gt;
        }
        proof {
            assert(a@.skip(ai + i).drop_first() =~= a@.skip(ai + i + 1));
            assert(b@.skip(bi + i).drop_first() =~= b@.skip(bi + i + 1));
        }
        i += 1;
    }
}

/// Whether every byte is an ASCII digit.
fn is_numeric_exec(a: &Vec<u8>) -> (r: bool)
    ensures
        r == is_numeric(a@),
{
    let n = a.len();
    let mut i: usize = 0;
    while i < n
        invariant
            i <= n,
            n == a@.len(),
            forall|j: int| 0 <= j < i ==> is_digit(#[trigger] a@[j]),
        decreases n - i,
    {
        if a[i] < DIGIT_ZERO || a[i] > 57 {
            return false;
        }
        i += 1;
    }
    true
}

/// Number of leading zero digits, so that the trimmed suffix starts there.
fn trim_offset(a: &Vec<u8>) -> (r: usize)
    ensures
        r <= a@.len(),
        trim_zeros(a@) == a@.skip(r as int),
{
    let n = a.len();
    let mut i: usize = 0;
    proof {
        assert(a@.skip(0) =~= a@);
    }
    while i < n && a[i] == DIGIT_ZERO
        invariant
            i <= n,
            n == a@.len(),
            trim_zeros(a@) == trim_zeros(a@.skip(i as int)),
        decreases n - i,
    {
        proof {
            assert(a@.skip(i as int).drop_first() =~= a@.skip(i + 1));
        }
        i += 1;
    }
    proof {
        assert(trim_zeros(a@.skip(i as int)) == a@.skip(i as int));
    }
    i
}

/// Compare one identifier with another, per `cmp_id`.
fn cmp_id_exec(a: &Vec<u8>, b: &Vec<u8>, build: bool) -> (r: Cmp)
    ensures
        r == cmp_id(a@, b@, build),
{
    proof {
        assert(a@.skip(0) =~= a@);
        assert(b@.skip(0) =~= b@);
    }
    let a_num = is_numeric_exec(a);
    let b_num = is_numeric_exec(b);
    if a_num && b_num {
        if build {
            let ta = trim_offset(a);
            let tb = trim_offset(b);
            let la = a.len() - ta;
            let lb = b.len() - tb;
            if la < lb {
                Cmp::Lt
            } else if la > lb {
                Cmp::Gt
            } else {
                let c = cmp_lex_from(a, b, ta, tb);
                if !matches!(c, Cmp::Eq) {
                    c
                } else if a.len() < b.len() {
                    Cmp::Lt
                } else if a.len() > b.len() {
                    Cmp::Gt
                } else {
                    Cmp::Eq
                }
            }
        } else {
            if a.len() < b.len() {
                Cmp::Lt
            } else if a.len() > b.len() {
                Cmp::Gt
            } else {
                cmp_lex_from(a, b, 0, 0)
            }
        }
    } else if a_num {
        Cmp::Lt
    } else if b_num {
        Cmp::Gt
    } else {
        cmp_lex_from(a, b, 0, 0)
    }
}

/// `find_dot` is the scan it reads as: the first dot, or the end.
proof fn lemma_find_dot_is(x: Seq<u8>, d: int)
    requires
        0 <= d <= x.len(),
        forall|j: int| 0 <= j < d ==> x[j] != DOT,
        d < x.len() ==> x[d] == DOT,
    ensures
        find_dot(x) == d,
    decreases d,
{
    if d > 0 {
        lemma_find_dot_is(x.drop_first(), d - 1);
        assert(forall|j: int| 1 <= j < x.len() ==> x[j] == x.drop_first()[j - 1]);
    }
}

/// The dot-separated identifiers of `s`, per `split_ids`.
fn split_ids_exec(s: &Vec<u8>) -> (r: Vec<Vec<u8>>)
    ensures
        r@.map_values(|t: Vec<u8>| t@) == split_ids(s@),
{
    let n = s.len();
    let mut r: Vec<Vec<u8>> = Vec::new();
    let mut start: usize = 0;
    proof {
        assert(s@.skip(0) =~= s@);
        assert(r@.map_values(|t: Vec<u8>| t@) =~= Seq::<Seq<u8>>::empty());
    }
    loop
        invariant_except_break
            start <= n,
            n == s@.len(),
            r@.map_values(|t: Vec<u8>| t@) + split_ids(s@.skip(start as int)) =~= split_ids(s@),
        ensures
            r@.map_values(|t: Vec<u8>| t@) == split_ids(s@),
        decreases n - start,
    {
        let mut j = start;
        while j < n && s[j] != DOT
            invariant
                start <= j <= n,
                n == s@.len(),
                forall|m: int| start <= m < j ==> s@[m] != DOT,
            decreases n - j,
        {
            j += 1;
        }
        let token = slice_to_vec(slice_subrange(s.as_slice(), start, j));
        let ghost prev = r@.map_values(|t: Vec<u8>| t@);
        r.push(token);
        proof {
            let x = s@.skip(start as int);
            lemma_find_dot_is(x, j - start);
            assert(r@.map_values(|t: Vec<u8>| t@) =~= prev.push(s@.subrange(
                start as int,
                j as int,
            )));
            assert(x.subrange(0, j - start) =~= s@.subrange(start as int, j as int));
        }
        if j == n {
            proof {
                let x = s@.skip(start as int);
                assert(split_ids(x) == seq![x]);
                assert(x =~= s@.subrange(start as int, j as int));
                assert(r@.map_values(|t: Vec<u8>| t@) =~= split_ids(s@));
            }
            return r;
        }
        proof {
            let x = s@.skip(start as int);
            let d = j - start;
            assert(split_ids(x) == seq![x.subrange(0, d)] + split_ids(x.skip(d + 1)));
            assert(x.skip(d + 1) =~= s@.skip(j + 1));
            assert(r@.map_values(|t: Vec<u8>| t@) + split_ids(s@.skip(j + 1)) =~= split_ids(
                s@,
            ));
        }
        start = j + 1;
    }
}

/// Compare identifier lists pairwise, per `cmp_ids`.
fn cmp_ids_exec(a: &Vec<Vec<u8>>, b: &Vec<Vec<u8>>, build: bool) -> (r: Cmp)
    ensures
        r == cmp_ids(
            a@.map_values(|t: Vec<u8>| t@),
            b@.map_values(|t: Vec<u8>| t@),
            build,
        ),
{
    let ghost am = a@.map_values(|t: Vec<u8>| t@);
    let ghost bm = b@.map_values(|t: Vec<u8>| t@);
    let an = a.len();
    let bn = b.len();
    let mut i: usize = 0;
    proof {
        assert(am.skip(0) =~= am);
        assert(bm.skip(0) =~= bm);
    }
    loop
        invariant
            an == a@.len(),
            bn == b@.len(),
            i <= an,
            i <= bn,
            am == a@.map_values(|t: Vec<u8>| t@),
            bm == b@.map_values(|t: Vec<u8>| t@),
            cmp_ids(am, bm, build) == cmp_ids(am.skip(i as int), bm.skip(i as int), build),
        decreases a@.len() - i,
    {
        if i == an && i == bn {
            return Cmp::Eq;
        }
        if i == an {
            return Cmp::Lt;
        }
        if i == bn {
            return Cmp::Gt;
        }
        let c = cmp_id_exec(&a[i], &b[i], build);
        proof {
            assert(am.skip(i as int)[0] == am[i as int]);
            assert(bm.skip(i as int)[0] == bm[i as int]);
        }
        if !matches!(c, Cmp::Eq) {
            return c;
        }
        proof {
            assert(am.skip(i as int).drop_first() =~= am.skip(i + 1));
            assert(bm.skip(i as int).drop_first() =~= bm.skip(i + 1));
        }
        i += 1;
    }
}

/// Compare two parsed versions, per the total order `cmp_key`.
pub fn cmp_entries(x: &VersionEntry, y: &VersionEntry) -> (r: Cmp)
    ensures
        r == cmp_key(x@, y@),
{
    if x.major < y.major {
        return Cmp::Lt;
    }
    if x.major > y.major {
        return Cmp::Gt;
    }
    if x.minor < y.minor {
        return Cmp::Lt;
    }
    if x.minor > y.minor {
        return Cmp::Gt;
    }
    if x.patch < y.patch {
        return Cmp::Lt;
    }
    if x.patch > y.patch {
        return Cmp::Gt;
    }
    let pre_cmp: Cmp = if x.pre.len() == 0 && y.pre.len() == 0 {
        Cmp::Eq
    } else if x.pre.len() == 0 {
        Cmp::Gt
    } else if y.pre.len() == 0 {
        Cmp::Lt
    } else {
        let xi = split_ids_exec(&x.pre);
        let yi = split_ids_exec(&y.pre);
        cmp_ids_exec(&xi, &yi, false)
    };
    if !matches!(pre_cmp, Cmp::Eq) {
        return pre_cmp;
    }
    let xb = split_ids_exec(&x.build);
    let yb = split_ids_exec(&y.build);
    cmp_ids_exec(&xb, &yb, true)
}

/// Entries ranked newest first.
pub open spec fn sorted_descending(s: Seq<VersionEntry>) -> bool {
    forall|i: int, j: int| 0 <= i < j < s.len() ==> key_ge(#[trigger] s[i]@, #[trigger] s[j]@)
}

/// Inserting an element anywhere adds exactly it to the multiset.
proof fn lemma_seq_insert_to_multiset<A>(s: Seq<A>, pos: int, e: A)
    requires
        0 <= pos <= s.len(),
    ensures
        s.insert(pos, e).to_multiset() == s.to_multiset().insert(e),
{
    let t = s.insert(pos, e);
    assert(t.remove(pos) =~= s);
    assert(t[pos] == e);
    assert(s.to_multiset() == t.to_multiset().remove(e));
    assert(t.contains(e));
    assert(t.to_multiset().count(e) > 0);
    lemma_multiset_remove_insert(t.to_multiset(), e);
    assert(t.to_multiset() =~= s.to_multiset().insert(e));
}

/// Taking one occurrence out and putting it back changes nothing.
proof fn lemma_multiset_remove_insert<A>(m: Multiset<A>, y: A)
    requires
        m.count(y) >= 1,
    ensures
        m.remove(y).insert(y) =~= m,
{
    assert forall|x: A| m.remove(y).insert(y).count(x) == m.count(x) by {
        if x == y {
            assert(m.remove(y).count(y) == m.count(y) - 1);
        }
    }
}

/// A permutation maps to a permutation.
proof fn lemma_map_values_to_multiset<A, B>(a: Seq<A>, b: Seq<A>, f: spec_fn(A) -> B)
    requires
        a.to_multiset() == b.to_multiset(),
    ensures
        a.map_values(f).to_multiset() == b.map_values(f).to_multiset(),
    decreases a.len(),
{
    if a.len() == 0 {
        assert(b.to_multiset().len() == 0);
        assert(b.len() == 0);
        assert(a.map_values(f) =~= Seq::<B>::empty());
        assert(b.map_values(f) =~= Seq::<B>::empty());
        assert(a.map_values(f).to_multiset() =~= b.map_values(f).to_multiset());
    } else {
        let x = a.last();
        assert(a[a.len() - 1] == x);
        assert(a.contains(x));
        assert(a.to_multiset().count(x) > 0);
        assert(b.to_multiset().count(x) > 0);
        assert(b.contains(x));
        let j = choose|j: int| 0 <= j < b.len() && b[j] == x;
        let a1 = a.drop_last();
        let b1 = b.remove(j);
        assert(a.remove(a.len() - 1) =~= a1);
        assert(a1.to_multiset() == a.to_multiset().remove(x));
        assert(b1.to_multiset() == b.to_multiset().remove(x));
        lemma_map_values_to_multiset(a1, b1, f);
        assert(a.map_values(f) =~= a1.map_values(f).push(f(x)));
        assert(a.map_values(f).to_multiset() == a1.map_values(f).to_multiset().insert(f(x)));
        assert(b.map_values(f).remove(j) =~= b1.map_values(f));
        assert(b.map_values(f)[j] == f(x));
        assert(b1.map_values(f).to_multiset() == b.map_values(f).to_multiset().remove(f(x)));
        assert(b.map_values(f).contains(f(x)));
        assert(b.map_values(f).to_multiset().count(f(x)) > 0);
        lemma_multiset_remove_insert(b.map_values(f).to_multiset(), f(x));
        assert(a.map_values(f).to_multiset() =~= b.map_values(f).to_multiset());
    }
}

/// Sort parsed versions newest first; the entries are a permutation of
/// the input.
fn sort_entries_descending(v: Vec<VersionEntry>) -> (r: Vec<VersionEntry>)
    ensures
        sorted_descending(r@),
        r@.to_multiset() == v@.to_multiset(),
{
    let mut out: Vec<VersionEntry> = Vec::new();
    let mut rest = v;
    proof {
        assert(out@.to_multiset().add(rest@.to_multiset()) =~= v@.to_multiset());
    }
    while rest.len() > 0
        invariant
            sorted_descending(out@),
            out@.to_multiset().add(rest@.to_multiset()) == v@.to_multiset(),
        decreases rest@.len(),
    {
        let ghost rest_prev = rest@;
        let e = rest.remove(0);
        proof {
            assert(rest@ == rest_prev.remove(0));
            assert(rest_prev[0] == e);
            assert(rest_prev.remove(0).to_multiset() == rest_prev.to_multiset().remove(
                rest_prev[0],
            ));
            assert(rest@.to_multiset() == rest_prev.to_multiset().remove(e));
            assert(rest_prev.contains(e));
            assert(rest_prev.to_multiset().count(e) > 0);
        }
        let n = out.len();
        let mut pos: usize = 0;
        loop
            invariant
                pos <= n,
                n == out@.len(),
                forall|k: int| 0 <= k < pos ==> key_ge(#[trigger] out@[k]@, e@),
            ensures
                pos <= n,
                n == out@.len(),
                forall|k: int| 0 <= k < pos ==> key_ge(#[trigger] out@[k]@, e@),
                pos < n ==> cmp_key(out@[pos as int]@, e@) == Cmp::Lt,
            decreases n - pos,
        {
            if pos == n {
                break;
            }
            let c = cmp_entries(&out[pos], &e);
            if matches!(c, Cmp::Lt) {
                break;
            }
            pos += 1;
        }
        let ghost out_prev = out@;
        proof {
            if pos < out_prev.len() {
                lemma_cmp_key_props(out_prev[pos as int]@, e@);
                assert(key_ge(e@, out_prev[pos as int]@));
                assert forall|k: int| pos <= k < out_prev.len() implies key_ge(
                    e@,
                    #[trigger] out_prev[k]@,
                ) by {
                    if k > pos {
                        assert(key_ge(out_prev[pos as int]@, out_prev[k]@));
                        lemma_key_ge_trans(e@, out_prev[pos as int]@, out_prev[k]@);
                    }
                }
            }
        }
        out.insert(pos, e);
        proof {
            let t = out@;
            assert(t == out_prev.insert(pos as int, e));
            lemma_seq_insert_to_multiset(out_prev, pos as int, e);
            assert(out@.to_multiset() == out_prev.to_multiset().insert(e));
            assert forall|x: VersionEntry|
                out@.to_multiset().add(rest@.to_multiset()).count(x) == v@.to_multiset().count(
                x,
            ) by {
                assert(out_prev.to_multiset().add(rest_prev.to_multiset()).count(x)
                    == v@.to_multiset().count(x));
                if x == e {
                    assert(rest_prev.to_multiset().count(e) >= 1);
                    assert(rest@.to_multiset().count(e) == rest_prev.to_multiset().count(e) - 1);
                    assert(out@.to_multiset().count(e) == out_prev.to_multiset().count(e) + 1);
                }
            }
            assert(out@.to_multiset().add(rest@.to_multiset()) =~= v@.to_multiset());
            assert forall|i: int, j: int| 0 <= i < j < t.len() implies key_ge(
                #[trigger] t[i]@,
                #[trigger] t[j]@,
            ) by {
                if j < pos {
                    assert(t[i] == out_prev[i] && t[j] == out_prev[j]);
                } else if i < pos && j == pos {
                    assert(t[i] == out_prev[i] && t[j] == e);
                } else if i < pos && j > pos {
                    assert(t[i] == out_prev[i] && t[j] == out_prev[j - 1]);
                } else if i == pos {
                    assert(t[i] == e && t[j] == out_prev[j - 1]);
                } else {
                    assert(t[i] == out_prev[i - 1] && t[j] == out_prev[j - 1]);
                }
            }
        }
    }
    proof {
        assert(rest@.to_multiset().len() == 0);
        assert(out@.to_multiset().add(rest@.to_multiset()) =~= out@.to_multiset());
    }
    out
}

/// Whether every listed version string parses.
pub open spec fn all_versions_parse(entries: Seq<String>) -> bool {
    forall|i: int| 0 <= i < entries.len() ==> parsed_semver(#[trigger] entries[i]@) is Some
}

/// The character sequences of the strings, in order.
pub open spec fn views_of(s: Seq<String>) -> Seq<Seq<char>> {
    s.map_values(|x: String| x@)
}

/// Version strings ranked newest first by their parsed keys.
pub open spec fn versions_sorted_descending(out: Seq<String>) -> bool {
    forall|i: int, j: int|
        0 <= i < j < out.len() ==> key_ge(
            parsed_semver(#[trigger] out[i]@)->Some_0,
            parsed_semver(#[trigger] out[j]@)->Some_0,
        )
}

/// A version string of a repository index that is no semantic version;
/// it poisons the whole tier it stands in.
#[derive(Debug)]
pub struct VersionParseError {
    pub version: String,
}

/// Rank a tier's listed chart versions newest first.  Every entry must
/// parse as a semantic version: the first that does not fails the whole
/// call.  Equal versions are kept, not deduplicated.
pub fn sort_versions_newest_first(entries: &Vec<String>) -> (r: Result<
    Vec<String>,
    VersionParseError,
>)
    ensures
        match r {
            Ok(out) => {
                &&& all_versions_parse(entries@)
                &&& forall|i: int|
                    0 <= i < out@.len() ==> parsed_semver(#[trigger] out@[i]@) is Some
                &&& versions_sorted_descending(out@)
                &&& views_of(out@).to_multiset() == views_of(entries@).to_multiset()
            },
            Err(e) => exists|i: int|
                {
                    &&& 0 <= i < entries@.len()
                    &&& parsed_semver(#[trigger] entries@[i]@) is None
                    &&& e.version@ == entries@[i]@
                    &&& forall|j: int| 0 <= j < i ==> parsed_semver(#[trigger] entries@[j]@) is Some
                },
        },
{
    let n = entries.len();
    let mut parsed: Vec<VersionEntry> = Vec::new();
    let mut i: usize = 0;
    while i < n
        invariant
            i <= n,
            n == entries@.len(),
            parsed@.len() == i,
            forall|k: int|
                0 <= k < i ==> parsed_semver(#[trigger] entries@[k]@) is Some,
            forall|k: int| 0 <= k < i ==> (#[trigger] parsed@[k]).text@ == entries@[k]@,
            forall|k: int|
                0 <= k < i ==> (#[trigger] parsed@[k])@ == parsed_semver(entries@[k]@)->Some_0,
        decreases n - i,
    {
        match parse_version(&entries[i]) {
            Some(entry) => {
                parsed.push(entry);
            },
            None => {
                return Err(VersionParseError { version: entries[i].clone() });
            },
        }
        i += 1;
    }
    let ghost parsed_seq = parsed@;
    let sorted = sort_entries_descending(parsed);
    let ghost sorted_seq = sorted@;
    proof {
        assert forall|w: int| 0 <= w < sorted_seq.len() implies {
            &&& parsed_semver((#[trigger] sorted_seq[w]).text@) is Some
            &&& sorted_seq[w]@ == parsed_semver(sorted_seq[w].text@)->Some_0
        } by {
            assert(sorted_seq.contains(sorted_seq[w]));
            assert(sorted_seq.to_multiset().count(sorted_seq[w]) > 0);
            assert(parsed_seq.to_multiset().count(sorted_seq[w]) > 0);
            assert(parsed_seq.contains(sorted_seq[w]));
            let k = choose|k: int| 0 <= k < parsed_seq.len() && parsed_seq[k] == sorted_seq[w];
            assert(parsed_seq[k].text@ == entries@[k]@);
        }
    }
    let m = sorted.len();
    let mut out: Vec<String> = Vec::new();
    let mut w: usize = 0;
    while w < m
        invariant
            w <= m,
            m == sorted@.len(),
            sorted@ == sorted_seq,
            out@.len() == w,
            forall|k: int| 0 <= k < w ==> (#[trigger] out@[k])@ == sorted_seq[k].text@,
        decreases m - w,
    {
        out.push(sorted[w].text.clone());
        w += 1;
    }
    proof {
        assert(views_of(out@) =~= sorted_seq.map_values(|e: VersionEntry| e.text@));
        assert(views_of(entries@) =~= parsed_seq.map_values(|e: VersionEntry| e.text@));
        lemma_map_values_to_multiset(
            sorted_seq,
            parsed_seq,
            |e: VersionEntry| e.text@,
        );
    }
    Ok(out)
}

} // verus!
