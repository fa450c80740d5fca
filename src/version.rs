use vstd::prelude::*;
use vstd::std_specs::cmp::{PartialEqSpec, PartialOrdIs};

use crate::digits::{all_digits, char_codes, digits_value};
use crate::local::cmp_local_opt;
use crate::order::{
    cmp_int, cmp_lex, cmp_lex_vec, cmp_padded, cmp_padded_vec, cmp_u64, ints64, lemma_cmp_lex_laws,
    lemma_cmp_padded_laws, preorder_laws,
};

verus! {

/// The canonical pre-release labels, in their order of precedence.
#[derive(Clone, Copy, Debug, PartialEq, Eq, Structural)]
pub enum PreReleaseType {
    Alpha,
    Beta,
    Rc,
}

/// Why a version, or a field of a metadata document, could not be read.
#[derive(Debug, Clone, PartialEq, Eq)]
pub enum Error {
    /// The text does not follow the version grammar.
    MalformedVersion(String),
    /// The metadata document has no line for the named field.
    MissingField(String),
}

/// A version identifier split into its segments.
///
/// `version_string` keeps the text that was parsed; it takes no part in `==` or `<`.
#[derive(Debug, Clone)]
pub struct Version {
    pub epoch: Option<u32>,
    pub release: Vec<u32>,
    pub pre: Option<(PreReleaseType, Vec<u32>)>,
    pub post: Option<u32>,
    pub dev: Option<u32>,
    pub local: Option<String>,
    pub version_string: String,
}

pub open spec fn label_rank(t: PreReleaseType) -> int {
    match t {
        PreReleaseType::Alpha => 0,
        PreReleaseType::Beta => 1,
        PreReleaseType::Rc => 2,
    }
}

pub open spec fn ints(s: Seq<u32>) -> Seq<int> {
    s.map_values(|x: u32| x as int)
}

/// The epoch, an absent one counting as 0.
pub open spec fn epoch_key(v: &Version) -> int {
    match v.epoch {
        Some(e) => e as int,
        None => 0,
    }
}

/// The pre-release rank: a lone dev release comes before every pre-release, and a
/// version with no pre-release after all of them.
pub open spec fn pre_key(v: &Version) -> Seq<int> {
    match v.pre {
        Some(p) => seq![1int, label_rank(p.0)] + ints(p.1@),
        None => if v.post is None && v.dev is Some {
            seq![0int]
        } else {
            seq![2int]
        },
    }
}

/// The post-release rank: none comes before any.
pub open spec fn post_key(v: &Version) -> Seq<int> {
    match v.post {
        Some(n) => seq![1int, n as int],
        None => seq![0int],
    }
}

/// The dev-release rank: any comes before none.
pub open spec fn dev_key(v: &Version) -> Seq<int> {
    match v.dev {
        Some(n) => seq![0int, n as int],
        None => seq![1int],
    }
}

/// A part of a local label that is made of digits alone.
pub open spec fn is_numeric(x: Seq<char>) -> bool {
    x.len() > 0 && all_digits(x)
}

/// The pieces of `s` between occurrences of `sep`.
pub open spec fn split_on(s: Seq<char>, sep: char) -> Seq<Seq<char>>
    decreases s.len(),
{
    if s.len() == 0 {
        seq![Seq::empty()]
    } else {
        let rest = split_on(s.drop_last(), sep);
        if s.last() == sep {
            rest.push(Seq::empty())
        } else {
            rest.update(rest.len() - 1, rest.last().push(s.last()))
        }
    }
}

/// Compares two parts of local labels: numbers by value, after every alphanumeric part,
/// and alphanumeric parts character by character.
pub open spec fn cmp_part(x: Seq<char>, y: Seq<char>) -> int {
    if is_numeric(x) && is_numeric(y) {
        cmp_int(digits_value(x) as int, digits_value(y) as int)
    } else if is_numeric(x) {
        1
    } else if is_numeric(y) {
        -1
    } else {
        cmp_lex(char_codes(x), char_codes(y))
    }
}

/// Compares two sequences of parts part by part; a proper prefix comes first.
pub open spec fn cmp_parts(a: Seq<Seq<char>>, b: Seq<Seq<char>>) -> int
    decreases a.len(),
{
    if a.len() == 0 {
        if b.len() == 0 {
            0
        } else {
            -1
        }
    } else if b.len() == 0 {
        1
    } else if cmp_part(a[0], b[0]) != 0 {
        cmp_part(a[0], b[0])
    } else {
        cmp_parts(a.drop_first(), b.drop_first())
    }
}

/// Compares local labels: none comes before any.
pub open spec fn cmp_local(a: Option<Seq<char>>, b: Option<Seq<char>>) -> int {
    match (a, b) {
        (None, None) => 0,
        (None, Some(_)) => -1,
        (Some(_), None) => 1,
        (Some(x), Some(y)) => cmp_parts(split_on(x, '.'), split_on(y, '.')),
    }
}

pub open spec fn local_of(v: &Version) -> Option<Seq<char>> {
    match v.local {
        Some(l) => Some(l@),
        None => None,
    }
}

/// The order of versions: epoch, then release padded with zeros, then pre-release,
/// post-release, dev release and local label, the first that differs deciding.
pub open spec fn version_cmp(a: &Version, b: &Version) -> int {
    let e = cmp_int(epoch_key(a), epoch_key(b));
    let r = cmp_padded(ints(a.release@), ints(b.release@));
    let p = cmp_lex(pre_key(a), pre_key(b));
    let q = cmp_lex(post_key(a), post_key(b));
    let d = cmp_lex(dev_key(a), dev_key(b));
    if e != 0 {
        e
    } else if r != 0 {
        r
    } else if p != 0 {
        p
    } else if q != 0 {
        q
    } else if d != 0 {
        d
    } else {
        cmp_local(local_of(a), local_of(b))
    }
}

proof fn lemma_cmp_part_laws(x: Seq<char>, y: Seq<char>, z: Seq<char>)
    ensures
        preorder_laws(
            cmp_part(x, y),
            cmp_part(y, x),
            cmp_part(x, z),
            cmp_part(y, z),
            cmp_part(z, x),
            cmp_part(z, y),
        ),
{
    lemma_cmp_lex_laws(char_codes(x), char_codes(y), char_codes(z));
}

proof fn lemma_cmp_parts_laws(a: Seq<Seq<char>>, b: Seq<Seq<char>>, c: Seq<Seq<char>>)
    ensures
        preorder_laws(
            cmp_parts(a, b),
            cmp_parts(b, a),
            cmp_parts(a, c),
            cmp_parts(b, c),
            cmp_parts(c, a),
            cmp_parts(c, b),
        ),
    decreases a.len() + b.len() + c.len(),
{
    let ta = if a.len() == 0 { a } else { a.drop_first() };
    let tb = if b.len() == 0 { b } else { b.drop_first() };
    let tc = if c.len() == 0 { c } else { c.drop_first() };
    if a.len() + b.len() + c.len() > 0 {
        lemma_cmp_parts_laws(ta, tb, tc);
    }
    if a.len() > 0 && b.len() > 0 && c.len() > 0 {
        lemma_cmp_part_laws(a[0], b[0], c[0]);
        lemma_cmp_part_laws(b[0], c[0], a[0]);
        lemma_cmp_part_laws(c[0], a[0], b[0]);
        lemma_cmp_part_laws(b[0], a[0], c[0]);
        lemma_cmp_part_laws(a[0], c[0], b[0]);
        lemma_cmp_part_laws(c[0], b[0], a[0]);
    } else if a.len() > 0 && b.len() > 0 {
        lemma_cmp_part_laws(a[0], b[0], a[0]);
    } else if a.len() > 0 && c.len() > 0 {
        lemma_cmp_part_laws(a[0], c[0], a[0]);
    } else if b.len() > 0 && c.len() > 0 {
        lemma_cmp_part_laws(b[0], c[0], b[0]);
    }
}

proof fn lemma_cmp_local_laws(a: Option<Seq<char>>, b: Option<Seq<char>>, c: Option<Seq<char>>)
    ensures
        preorder_laws(
            cmp_local(a, b),
            cmp_local(b, a),
            cmp_local(a, c),
            cmp_local(b, c),
            cmp_local(c, a),
            cmp_local(c, b),
        ),
{
    let e = Seq::<char>::empty();
    let sa = match a { Some(x) => split_on(x, '.'), None => seq![e] };
    let sb = match b { Some(x) => split_on(x, '.'), None => seq![e] };
    let sc = match c { Some(x) => split_on(x, '.'), None => seq![e] };
    lemma_cmp_parts_laws(sa, sb, sc);
}

/// The order of versions is a total preorder: each pair compares one way, the two
/// directions agree, versions that compare equal are interchangeable, and `<` chains.
pub proof fn lemma_version_cmp_laws(a: &Version, b: &Version, c: &Version)
    ensures
        preorder_laws(
            version_cmp(a, b),
            version_cmp(b, a),
            version_cmp(a, c),
            version_cmp(b, c),
            version_cmp(c, a),
            version_cmp(c, b),
        ),
{
    lemma_components_laws(a, b, c);
    lemma_components_laws(b, c, a);
    lemma_components_laws(c, a, b);
    lemma_components_laws(b, a, c);
    lemma_components_laws(a, c, b);
    lemma_components_laws(c, b, a);
}

proof fn lemma_components_laws(a: &Version, b: &Version, c: &Version)
    ensures
        preorder_laws(
            cmp_padded(ints(a.release@), ints(b.release@)),
            cmp_padded(ints(b.release@), ints(a.release@)),
            cmp_padded(ints(a.release@), ints(c.release@)),
            cmp_padded(ints(b.release@), ints(c.release@)),
            cmp_padded(ints(c.release@), ints(a.release@)),
            cmp_padded(ints(c.release@), ints(b.release@)),
        ),
        preorder_laws(
            cmp_lex(pre_key(a), pre_key(b)),
            cmp_lex(pre_key(b), pre_key(a)),
            cmp_lex(pre_key(a), pre_key(c)),
            cmp_lex(pre_key(b), pre_key(c)),
            cmp_lex(pre_key(c), pre_key(a)),
            cmp_lex(pre_key(c), pre_key(b)),
        ),
        preorder_laws(
            cmp_lex(post_key(a), post_key(b)),
            cmp_lex(post_key(b), post_key(a)),
            cmp_lex(post_key(a), post_key(c)),
            cmp_lex(post_key(b), post_key(c)),
            cmp_lex(post_key(c), post_key(a)),
            cmp_lex(post_key(c), post_key(b)),
        ),
        preorder_laws(
            cmp_lex(dev_key(a), dev_key(b)),
            cmp_lex(dev_key(b), dev_key(a)),
            cmp_lex(dev_key(a), dev_key(c)),
            cmp_lex(dev_key(b), dev_key(c)),
            cmp_lex(dev_key(c), dev_key(a)),
            cmp_lex(dev_key(c), dev_key(b)),
        ),
        preorder_laws(
            cmp_local(local_of(a), local_of(b)),
            cmp_local(local_of(b), local_of(a)),
            cmp_local(local_of(a), local_of(c)),
            cmp_local(local_of(b), local_of(c)),
            cmp_local(local_of(c), local_of(a)),
            cmp_local(local_of(c), local_of(b)),
        ),
{
    lemma_cmp_padded_laws(ints(a.release@), ints(b.release@), ints(c.release@));
    lemma_cmp_lex_laws(pre_key(a), pre_key(b), pre_key(c));
    lemma_cmp_lex_laws(post_key(a), post_key(b), post_key(c));
    lemma_cmp_lex_laws(dev_key(a), dev_key(b), dev_key(c));
    lemma_cmp_local_laws(local_of(a), local_of(b), local_of(c));
}

/// `<`, `==` and `>` on versions: for any two versions exactly one holds; `<` and `==`
/// chain; and `==` is an equivalence that `<` respects.
pub proof fn lemma_total_order(a: &Version, b: &Version, c: &Version)
    ensures
        (a.is_lt(b) || a.eq_spec(b) || a.is_gt(b)),
        !(a.is_lt(b) && a.eq_spec(b)),
        !(a.is_lt(b) && a.is_gt(b)),
        !(a.eq_spec(b) && a.is_gt(b)),
        a.is_lt(b) <==> b.is_gt(a),
        a.eq_spec(a),
        a.eq_spec(b) ==> b.eq_spec(a),
        a.is_lt(b) && b.is_lt(c) ==> a.is_lt(c),
        a.eq_spec(b) && b.eq_spec(c) ==> a.eq_spec(c),
        a.eq_spec(b) && b.is_lt(c) ==> a.is_lt(c),
        a.is_lt(b) && b.eq_spec(c) ==> a.is_lt(c),
{
    lemma_version_cmp_laws(a, b, c);
    lemma_version_cmp_laws(a, a, c);
    lemma_version_cmp_laws(b, c, a);
}

/// Equality ignores the text a version was read from: versions with the same segments
/// are equal.
pub proof fn lemma_eq_ignores_text(a: &Version, b: &Version)
    requires
        a.epoch == b.epoch,
        a.release@ == b.release@,
        a.pre is Some <==> b.pre is Some,
        a.pre is Some ==> (a.pre->0).0 == (b.pre->0).0 && (a.pre->0).1@ == (b.pre->0).1@,
        a.post == b.post,
        a.dev == b.dev,
        a.local is Some <==> b.local is Some,
        a.local is Some ==> (a.local->0)@ == (b.local->0)@,
    ensures
        a.eq_spec(b),
{
    lemma_version_cmp_laws(a, a, a);
    assert(pre_key(a) == pre_key(b));
    assert(local_of(a) == local_of(b));
}

/// The epoch decides first: a version with the larger epoch (an absent one counting as
/// 0) is the greater, whatever its other segments.
pub proof fn lemma_epoch_dominates(a: &Version, b: &Version)
    requires
        epoch_key(a) > epoch_key(b),
    ensures
        a.is_gt(b),
        b.is_lt(a),
{
}

/// Zeros at the end of a release do not change it: versions whose releases differ only
/// by trailing zeros, and which agree elsewhere, are equal.
pub proof fn lemma_release_padding(a: &Version, b: &Version)
    requires
        a.release@.len() <= b.release@.len(),
        a.release@ == b.release@.subrange(0, a.release@.len() as int),
        forall|k: int| a.release@.len() <= k < b.release@.len() ==> b.release@[k] == 0,
        a.epoch == b.epoch,
        a.pre is Some <==> b.pre is Some,
        a.pre is Some ==> (a.pre->0).0 == (b.pre->0).0 && (a.pre->0).1@ == (b.pre->0).1@,
        a.post == b.post,
        a.dev == b.dev,
        a.local is Some <==> b.local is Some,
        a.local is Some ==> (a.local->0)@ == (b.local->0)@,
    ensures
        a.eq_spec(b),
{
    lemma_version_cmp_laws(a, a, a);
    assert(pre_key(a) == pre_key(b));
    assert(local_of(a) == local_of(b));
    assert(ints(a.release@) =~= ints(b.release@).subrange(0, a.release@.len() as int));
    lemma_padded_zeros(ints(a.release@), ints(b.release@));
}

proof fn lemma_padded_zeros(x: Seq<int>, y: Seq<int>)
    requires
        x.len() <= y.len(),
        x == y.subrange(0, x.len() as int),
        forall|k: int| x.len() <= k < y.len() ==> y[k] == 0,
    ensures
        cmp_padded(x, y) == 0,
    decreases y.len(),
{
    if y.len() > 0 {
        let tx = if x.len() == 0 { x } else { x.drop_first() };
        let ty = y.drop_first();
        assert(tx == ty.subrange(0, tx.len() as int));
        lemma_padded_zeros(tx, ty);
    }
}

fn label_rank_exec(t: PreReleaseType) -> (r: u64)
    ensures
        r as int == label_rank(t),
{
    match t {
        PreReleaseType::Alpha => 0,
        PreReleaseType::Beta => 1,
        PreReleaseType::Rc => 2,
    }
}

fn pre_key_vec(v: &Version) -> (r: Vec<u64>)
    ensures
        ints64(r@) == pre_key(v),
{
    match &v.pre {
        Some(p) => {
            let mut r: Vec<u64> = Vec::new();
            r.push(1);
            r.push(label_rank_exec(p.0));
            let mut i: usize = 0;
            while i < p.1.len()
                invariant
                    i <= p.1.len(),
                    ints64(r@) == seq![1int, label_rank(p.0)] + ints(p.1@.subrange(0, i as int)),
                decreases p.1.len() - i,
            {
                let ghost old_r = r@;
                r.push(p.1[i] as u64);
                assert(ints64(r@) =~= ints64(old_r).push(p.1@[i as int] as int));
                assert(p.1@.subrange(0, i + 1) =~= p.1@.subrange(0, i as int).push(p.1@[i as int]));
                i = i + 1;
                assert(ints64(r@) =~= seq![1int, label_rank(p.0)] + ints(p.1@.subrange(0, i as int)));
            }
            assert(p.1@.subrange(0, p.1.len() as int) =~= p.1@);
            r
        },
        None => {
            if v.post.is_none() && v.dev.is_some() {
                let r: Vec<u64> = vec![0];
                assert(ints64(r@) =~= pre_key(v));
                r
            } else {
                let r: Vec<u64> = vec![2];
                assert(ints64(r@) =~= pre_key(v));
                r
            }
        },
    }
}

fn post_key_vec(v: &Version) -> (r: Vec<u64>)
    ensures
        ints64(r@) == post_key(v),
{
    let r: Vec<u64> = match v.post {
        Some(n) => vec![1, n as u64],
        None => vec![0],
    };
    assert(ints64(r@) =~= post_key(v));
    r
}

fn dev_key_vec(v: &Version) -> (r: Vec<u64>)
    ensures
        ints64(r@) == dev_key(v),
{
    let r: Vec<u64> = match v.dev {
        Some(n) => vec![0, n as u64],
        None => vec![1],
    };
    assert(ints64(r@) =~= dev_key(v));
    r
}

fn epoch_of(v: &Version) -> (r: u64)
    ensures
        r as int == epoch_key(v),
{
    match v.epoch {
        Some(e) => e as u64,
        None => 0,
    }
}

/// Three-way comparison of two versions: -1, 0 or 1.
pub fn compare_versions(a: &Version, b: &Version) -> (r: i8)
    ensures
        r as int == version_cmp(a, b),
{
    let e = cmp_u64(epoch_of(a), epoch_of(b));
    if e != 0 {
        return e;
    }
    let r = cmp_padded_vec(&a.release, &b.release);
    if r != 0 {
        return r;
    }
    let p = cmp_lex_vec(&pre_key_vec(a), &pre_key_vec(b));
    if p != 0 {
        return p;
    }
    let q = cmp_lex_vec(&post_key_vec(a), &post_key_vec(b));
    if q != 0 {
        return q;
    }
    let d = cmp_lex_vec(&dev_key_vec(a), &dev_key_vec(b));
    if d != 0 {
        return d;
    }
    cmp_local_opt(&a.local, &b.local)
}

pub open spec fn ordering_of(c: int) -> std::cmp::Ordering {
    if c < 0 {
        std::cmp::Ordering::Less
    } else if c > 0 {
        std::cmp::Ordering::Greater
    } else {
        std::cmp::Ordering::Equal
    }
}

impl PartialEq for Version {
    fn eq(&self, other: &Version) -> (r: bool) {
        compare_versions(self, other) == 0
    }
}

impl vstd::std_specs::cmp::PartialEqSpecImpl for Version {
    open spec fn obeys_eq_spec() -> bool {
        true
    }

    open spec fn eq_spec(&self, other: &Version) -> bool {
        version_cmp(self, other) == 0
    }
}

impl PartialOrd for Version {
    fn partial_cmp(&self, other: &Version) -> (r: Option<std::cmp::Ordering>) {
        let c = compare_versions(self, other);
        if c < 0 {
            Some(std::cmp::Ordering::Less)
        } else if c > 0 {
            Some(std::cmp::Ordering::Greater)
        } else {
            Some(std::cmp::Ordering::Equal)
        }
    }
}

impl vstd::std_specs::cmp::PartialOrdSpecImpl for Version {
    open spec fn obeys_partial_cmp_spec() -> bool {
        true
    }

    open spec fn partial_cmp_spec(&self, other: &Version) -> Option<std::cmp::Ordering> {
        Some(ordering_of(version_cmp(self, other)))
    }
}

} // verus!
