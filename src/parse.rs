use vstd::prelude::*;

use crate::digits::{all_digits, digit_of, digits_value, is_digit, lemma_digits_value_push};
use crate::version::{Error, PreReleaseType, Version};

verus! {

/// What a version string denotes: each number at full size, the local label as written.
pub struct Parsed {
    pub epoch: Option<nat>,
    pub release: Seq<nat>,
    pub pre: Option<(PreReleaseType, nat)>,
    pub post: Option<nat>,
    pub dev: Option<nat>,
    pub local: Option<Seq<char>>,
}

/// Characters with the Unicode White_Space property.
pub open spec fn is_space(c: char) -> bool {
    ||| '\t' <= c && c <= '\r'
    ||| c == ' '
    ||| c == '\u{85}'
    ||| c == '\u{a0}'
    ||| c == '\u{1680}'
    ||| '\u{2000}' <= c && c <= '\u{200a}'
    ||| c == '\u{2028}'
    ||| c == '\u{2029}'
    ||| c == '\u{202f}'
    ||| c == '\u{205f}'
    ||| c == '\u{3000}'
}

pub open spec fn is_sep(c: char) -> bool {
    c == '-' || c == '_' || c == '.'
}

pub open spec fn is_alnum(c: char) -> bool {
    is_digit(c) || ('a' <= c && c <= 'z') || ('A' <= c && c <= 'Z')
}

pub open spec fn lower(c: char) -> char {
    if 'A' <= c && c <= 'Z' {
        ((c as u32) + 32) as char
    } else {
        c
    }
}

/// A local label as it is kept: letters in lower case, every separator a dot.
pub open spec fn normalize_local(l: Seq<char>) -> Seq<char> {
    l.map_values(|c: char| if is_sep(c) { '.' } else { lower(c) })
}

/// The index of the first character at or after `i` that is not white space.
pub open spec fn skip_spaces(s: Seq<char>, i: int) -> int
    decreases s.len() - i,
{
    if 0 <= i < s.len() && is_space(s[i]) {
        skip_spaces(s, i + 1)
    } else {
        i
    }
}

/// How many digits stand in a row from `i` on.
pub open spec fn digits_len(s: Seq<char>, i: int) -> nat
    decreases s.len() - i,
{
    if 0 <= i < s.len() && is_digit(s[i]) {
        1 + digits_len(s, i + 1)
    } else {
        0
    }
}

/// How many letters and digits stand in a row from `i` on.
pub open spec fn alnum_len(s: Seq<char>, i: int) -> nat
    decreases s.len() - i,
{
    if 0 <= i < s.len() && is_alnum(s[i]) {
        1 + alnum_len(s, i + 1)
    } else {
        0
    }
}

/// The value of the digits that stand in a row from `i` on.
pub open spec fn number_at(s: Seq<char>, i: int) -> nat {
    digits_value(s.subrange(i, i + digits_len(s, i)))
}

/// Skips one separator at `i`, if one stands there.
pub open spec fn after_sep(s: Seq<char>, i: int) -> int {
    if 0 <= i < s.len() && is_sep(s[i]) {
        i + 1
    } else {
        i
    }
}

/// Whether `w` stands at `i`, letter case aside (`w` is in lower case).
pub open spec fn word_at_ci(s: Seq<char>, i: int, w: Seq<char>) -> bool {
    0 <= i && i + w.len() <= s.len() && forall|j: int| 0 <= j < w.len() ==> lower(#[trigger] s[i + j]) == w[j]
}

/// Whether `w` stands at `i` exactly.
pub open spec fn word_at(s: Seq<char>, i: int, w: Seq<char>) -> bool {
    0 <= i && i + w.len() <= s.len() && forall|j: int| 0 <= j < w.len() ==> #[trigger] s[i + j] == w[j]
}

/// A pre-release label at `i` and where it ends, the longest spelling winning.
pub open spec fn pre_label(s: Seq<char>, i: int) -> Option<(PreReleaseType, int)> {
    if word_at_ci(s, i, seq!['p', 'r', 'e', 'v', 'i', 'e', 'w']) {
        Some((PreReleaseType::Rc, i + 7))
    } else if word_at_ci(s, i, seq!['a', 'l', 'p', 'h', 'a']) {
        Some((PreReleaseType::Alpha, i + 5))
    } else if word_at_ci(s, i, seq!['b', 'e', 't', 'a']) {
        Some((PreReleaseType::Beta, i + 4))
    } else if word_at_ci(s, i, seq!['p', 'r', 'e']) {
        Some((PreReleaseType::Rc, i + 3))
    } else if word_at_ci(s, i, seq!['r', 'c']) {
        Some((PreReleaseType::Rc, i + 2))
    } else if word_at_ci(s, i, seq!['a']) {
        Some((PreReleaseType::Alpha, i + 1))
    } else if word_at_ci(s, i, seq!['b']) {
        Some((PreReleaseType::Beta, i + 1))
    } else if word_at_ci(s, i, seq!['c']) {
        Some((PreReleaseType::Rc, i + 1))
    } else {
        None
    }
}

/// The end of a post-release label at `i`, if one stands there.
pub open spec fn post_label(s: Seq<char>, i: int) -> Option<int> {
    if word_at(s, i, seq!['p', 'o', 's', 't']) {
        Some(i + 4)
    } else if word_at(s, i, seq!['r', 'e', 'v']) {
        Some(i + 3)
    } else if word_at(s, i, seq!['r']) {
        Some(i + 1)
    } else {
        None
    }
}

/// The number after a label at `m`, behind an optional separator (0 when none is
/// written), and where it ends.
pub open spec fn label_number(s: Seq<char>, m: int) -> (nat, int) {
    let k = after_sep(s, m);
    if digits_len(s, k) > 0 {
        (number_at(s, k), k + digits_len(s, k))
    } else {
        (0, k)
    }
}

/// An optional `N!` at `i`.
pub open spec fn epoch_part(s: Seq<char>, i: int) -> (Option<nat>, int) {
    let j = i + digits_len(s, i);
    if j > i && j < s.len() && s[j] == '!' {
        (Some(number_at(s, i)), j + 1)
    } else {
        (None, i)
    }
}

/// The numbers of `N(.N)*` at `i`, and where they end.
pub open spec fn release_part(s: Seq<char>, i: int) -> (Seq<nat>, int)
    decreases s.len() - i,
{
    let j = i + digits_len(s, i);
    if 0 <= i && j + 1 < s.len() && s[j] == '.' && is_digit(s[j + 1]) {
        let rest = release_part(s, j + 1);
        (seq![number_at(s, i)] + rest.0, rest.1)
    } else {
        (seq![number_at(s, i)], j)
    }
}

/// An optional pre-release at `i`: separator, label, separator, number.
pub open spec fn pre_part(s: Seq<char>, i: int) -> (Option<(PreReleaseType, nat)>, int) {
    match pre_label(s, after_sep(s, i)) {
        Some(l) => {
            let n = label_number(s, l.1);
            (Some((l.0, n.0)), n.1)
        },
        None => (None, i),
    }
}

/// An optional post-release at `i`: `-N`, or separator, label, separator, number.
pub open spec fn post_part(s: Seq<char>, i: int) -> (Option<nat>, int) {
    if 0 <= i && i + 1 < s.len() && s[i] == '-' && is_digit(s[i + 1]) {
        (Some(number_at(s, i + 1)), i + 1 + digits_len(s, i + 1))
    } else {
        match post_label(s, after_sep(s, i)) {
            Some(m) => {
                let n = label_number(s, m);
                (Some(n.0), n.1)
            },
            None => (None, i),
        }
    }
}

/// An optional dev release at `i`: separator, `dev`, separator, number.
pub open spec fn dev_part(s: Seq<char>, i: int) -> (Option<nat>, int) {
    let k = after_sep(s, i);
    if word_at(s, k, seq!['d', 'e', 'v']) {
        let n = label_number(s, k + 3);
        (Some(n.0), n.1)
    } else {
        (None, i)
    }
}

/// Where the groups of letters and digits joined by separators from `j` on end.
pub open spec fn local_end(s: Seq<char>, j: int) -> int
    decreases s.len() - j,
{
    let a = j + alnum_len(s, j);
    if 0 <= j && a > j && a + 1 < s.len() && is_sep(s[a]) && is_alnum(s[a + 1]) {
        local_end(s, a + 1)
    } else {
        a
    }
}

/// An optional local label at `i`: `+` and groups of letters and digits joined by separators.
pub open spec fn local_part(s: Seq<char>, i: int) -> (Option<Seq<char>>, int) {
    if 0 <= i && i + 1 < s.len() && s[i] == '+' && is_alnum(s[i + 1]) {
        let e = local_end(s, i + 1);
        (Some(s.subrange(i + 1, e)), e)
    } else {
        (None, i)
    }
}

/// What `s` denotes as a version, or `None` where it does not follow the grammar.
pub open spec fn parse_spec(s: Seq<char>) -> Option<Parsed> {
    let i0 = skip_spaces(s, 0);
    let i1 = if i0 < s.len() && s[i0] == 'v' { i0 + 1 } else { i0 };
    let e = epoch_part(s, i1);
    if !(e.1 < s.len() && is_digit(s[e.1])) {
        None
    } else {
        let r = release_part(s, e.1);
        let p = pre_part(s, r.1);
        let q = post_part(s, p.1);
        let d = dev_part(s, q.1);
        let l = local_part(s, d.1);
        if skip_spaces(s, l.1) == s.len() {
            Some(Parsed { epoch: e.0, release: r.0, pre: p.0, post: q.0, dev: d.0, local: l.0 })
        } else {
            None
        }
    }
}

/// Groups of digits joined by dots: `N(.N)*`.
pub open spec fn join_groups(gs: Seq<Seq<char>>) -> Seq<char>
    decreases gs.len(),
{
    if gs.len() == 0 {
        Seq::empty()
    } else if gs.len() == 1 {
        gs[0]
    } else {
        gs[0] + seq!['.'] + join_groups(gs.drop_first())
    }
}

pub open spec fn digit_groups(gs: Seq<Seq<char>>) -> bool {
    forall|k: int| 0 <= k < gs.len() ==> #[trigger] gs[k].len() > 0 && all_digits(gs[k])
}

pub open spec fn group_values(gs: Seq<Seq<char>>) -> Seq<nat> {
    gs.map_values(|g: Seq<char>| digits_value(g))
}

proof fn lemma_digits_len_of_run(s: Seq<char>, i: int, g: Seq<char>)
    requires
        0 <= i,
        i + g.len() <= s.len(),
        s.subrange(i, i + g.len()) == g,
        all_digits(g),
        i + g.len() == s.len() || !is_digit(s[i + g.len()]),
    ensures
        digits_len(s, i) == g.len(),
    decreases g.len(),
{
    if g.len() > 0 {
        assert(s[i] == g[0]);
        assert(s.subrange(i + 1, i + 1 + g.drop_first().len()) =~= g.drop_first());
        lemma_digits_len_of_run(s, i + 1, g.drop_first());
    }
}

proof fn lemma_release_of_groups(p: Seq<char>, gs: Seq<Seq<char>>)
    requires
        gs.len() >= 1,
        digit_groups(gs),
    ensures
        release_part(p + join_groups(gs), p.len() as int) == (group_values(gs), (p + join_groups(gs)).len() as int),
    decreases gs.len(),
{
    let s = p + join_groups(gs);
    let i = p.len() as int;
    let g = gs[0];
    assert(gs[0].len() > 0 && all_digits(gs[0]));
    if gs.len() == 1 {
        assert(s.subrange(i, i + g.len()) =~= g);
        lemma_digits_len_of_run(s, i, g);
        assert(group_values(gs) =~= seq![digits_value(g)]);
    } else {
        let rest = gs.drop_first();
        assert(digit_groups(rest)) by {
            assert forall|k: int| 0 <= k < rest.len() implies #[trigger] rest[k].len() > 0 && all_digits(rest[k]) by {
                assert(rest[k] == gs[k + 1]);
            }
        }
        let q = p + g + seq!['.'];
        assert(s =~= q + join_groups(rest));
        assert(s.subrange(i, i + g.len()) =~= g);
        assert(s[i + g.len()] == '.');
        lemma_digits_len_of_run(s, i, g);
        assert(rest[0].len() > 0 && all_digits(rest[0]));
        assert(s[i + g.len() + 1] == join_groups(rest)[0]);
        lemma_release_of_groups(q, rest);
        assert(group_values(gs) =~= seq![digits_value(g)] + group_values(rest));
    }
}

/// Reading a release `N(.N)*` gives back the value of each group of digits, leading
/// zeros dropped, and nothing else.
pub proof fn lemma_release_round_trip(gs: Seq<Seq<char>>)
    requires
        gs.len() >= 1,
        digit_groups(gs),
    ensures
        parse_spec(join_groups(gs)) == Some(
            Parsed {
                epoch: None,
                release: group_values(gs),
                pre: None,
                post: None,
                dev: None,
                local: None,
            },
        ),
{
    let s = join_groups(gs);
    let n = s.len() as int;
    lemma_release_of_groups(Seq::empty(), gs);
    assert(Seq::<char>::empty() + s =~= s);
    assert(gs[0].len() > 0 && all_digits(gs[0]));
    if gs.len() == 1 {
        assert(s.subrange(0, gs[0].len() as int) =~= gs[0]);
        lemma_digits_len_of_run(s, 0, gs[0]);
    } else {
        assert(s =~= gs[0] + seq!['.'] + join_groups(gs.drop_first()));
        assert(s.subrange(0, gs[0].len() as int) =~= gs[0]);
        assert(s[gs[0].len() as int] == '.');
        lemma_digits_len_of_run(s, 0, gs[0]);
    }
    assert(is_digit(s[0]));
    assert(skip_spaces(s, 0) == 0);
    assert(epoch_part(s, 0) == (None::<nat>, 0int));
    assert(pre_label(s, n) is None);
    assert(post_label(s, n) is None);
    assert(!word_at(s, n, seq!['d', 'e', 'v']));
    assert(skip_spaces(s, n) == n);
}

pub open spec fn opt_nat(v: Option<u32>) -> Option<nat> {
    match v {
        Some(x) => Some(x as nat),
        None => None,
    }
}

fn space_char(c: char) -> (r: bool)
    ensures
        r == is_space(c),
{
    ('\t' <= c && c <= '\r') || c == ' ' || c == '\u{85}' || c == '\u{a0}' || c == '\u{1680}'
        || ('\u{2000}' <= c && c <= '\u{200a}') || c == '\u{2028}' || c == '\u{2029}'
        || c == '\u{202f}' || c == '\u{205f}' || c == '\u{3000}'
}

fn digit_char(c: char) -> (r: bool)
    ensures
        r == is_digit(c),
{
    '0' <= c && c <= '9'
}

fn sep_char(c: char) -> (r: bool)
    ensures
        r == is_sep(c),
{
    c == '-' || c == '_' || c == '.'
}

fn alnum_char(c: char) -> (r: bool)
    ensures
        r == is_alnum(c),
{
    ('0' <= c && c <= '9') || ('a' <= c && c <= 'z') || ('A' <= c && c <= 'Z')
}

fn lower_char(c: char) -> (r: char)
    ensures
        r == lower(c),
{
    if 'A' <= c && c <= 'Z' {
        ((c as u8) + 32) as char
    } else {
        c
    }
}

fn skip_spaces_at(cs: &Vec<char>, i: usize) -> (r: usize)
    requires
        i <= cs.len(),
    ensures
        r as int == skip_spaces(cs@, i as int),
        r <= cs.len(),
{
    let mut j = i;
    while j < cs.len() && space_char(cs[j])
        invariant
            i <= j <= cs.len(),
            skip_spaces(cs@, i as int) == skip_spaces(cs@, j as int),
        decreases cs.len() - j,
    {
        j = j + 1;
    }
    j
}

fn after_sep_at(cs: &Vec<char>, i: usize) -> (r: usize)
    requires
        i <= cs.len(),
    ensures
        r as int == after_sep(cs@, i as int),
        r <= cs.len(),
{
    if i < cs.len() && sep_char(cs[i]) {
        i + 1
    } else {
        i
    }
}

/// The digits in a row from `i` on: where they end, and their value where it fits in a `u32`.
fn scan_number(cs: &Vec<char>, i: usize) -> (r: (usize, Option<u32>))
    requires
        i <= cs.len(),
    ensures
        r.0 as int == i + digits_len(cs@, i as int),
        r.0 <= cs.len(),
        match r.1 {
            Some(v) => v as nat == number_at(cs@, i as int),
            None => number_at(cs@, i as int) > u32::MAX,
        },
{
    let ghost s = cs@;
    let mut j = i;
    let mut acc: u64 = 0;
    let mut over = false;
    assert(s.subrange(i as int, i as int) =~= Seq::<char>::empty());
    while j < cs.len() && digit_char(cs[j])
        invariant
            i <= j <= cs.len(),
            s == cs@,
            digits_len(s, i as int) == (j - i) + digits_len(s, j as int),
            !over ==> acc as nat == digits_value(s.subrange(i as int, j as int)) && acc <= u32::MAX,
            over ==> digits_value(s.subrange(i as int, j as int)) > u32::MAX,
        decreases cs.len() - j,
    {
        let c = cs[j];
        proof {
            assert(s.subrange(i as int, j + 1) =~= s.subrange(i as int, j as int).push(c));
            lemma_digits_value_push(s.subrange(i as int, j as int), c);
        }
        if !over {
            let d = (c as u32 - '0' as u32) as u64;
            assert(d as nat == digit_of(c));
            acc = acc * 10 + d;
            if acc > u32::MAX as u64 {
                over = true;
            }
        }
        j = j + 1;
    }
    if over {
        (j, None)
    } else {
        (j, Some(acc as u32))
    }
}

/// Whether `w` stands at `i` in `cs`, letter case aside.
fn word_ci_at(cs: &Vec<char>, i: usize, w: &Vec<char>) -> (r: bool)
    ensures
        r ==> i + w.len() <= cs.len(),
        r == word_at_ci(cs@, i as int, w@),
{
    if i > cs.len() || w.len() > cs.len() - i {
        return false;
    }
    let mut j: usize = 0;
    while j < w.len()
        invariant
            i + w.len() <= cs.len(),
            j <= w.len(),
            forall|k: int| 0 <= k < j ==> lower(#[trigger] cs@[i + k]) == w@[k],
        decreases w.len() - j,
    {
        if lower_char(cs[i + j]) != w[j] {
            return false;
        }
        j = j + 1;
    }
    true
}

/// Whether `w` stands at `i` in `cs` exactly.
fn word_exact_at(cs: &Vec<char>, i: usize, w: &Vec<char>) -> (r: bool)
    ensures
        r ==> i + w.len() <= cs.len(),
        r == word_at(cs@, i as int, w@),
{
    if i > cs.len() || w.len() > cs.len() - i {
        return false;
    }
    let mut j: usize = 0;
    while j < w.len()
        invariant
            i + w.len() <= cs.len(),
            j <= w.len(),
            forall|k: int| 0 <= k < j ==> cs@[i + k] == w@[k],
        decreases w.len() - j,
    {
        if cs[i + j] != w[j] {
            return false;
        }
        j = j + 1;
    }
    true
}

fn pre_label_at(cs: &Vec<char>, i: usize) -> (r: Option<(PreReleaseType, usize)>)
    ensures
        match r {
            Some(x) => pre_label(cs@, i as int) == Some((x.0, x.1 as int)) && x.1 <= cs.len(),
            None => pre_label(cs@, i as int) is None,
        },
{
    if word_ci_at(cs, i, &vec!['p', 'r', 'e', 'v', 'i', 'e', 'w']) {
        Some((PreReleaseType::Rc, i + 7))
    } else if word_ci_at(cs, i, &vec!['a', 'l', 'p', 'h', 'a']) {
        Some((PreReleaseType::Alpha, i + 5))
    } else if word_ci_at(cs, i, &vec!['b', 'e', 't', 'a']) {
        Some((PreReleaseType::Beta, i + 4))
    } else if word_ci_at(cs, i, &vec!['p', 'r', 'e']) {
        Some((PreReleaseType::Rc, i + 3))
    } else if word_ci_at(cs, i, &vec!['r', 'c']) {
        Some((PreReleaseType::Rc, i + 2))
    } else if word_ci_at(cs, i, &vec!['a']) {
        Some((PreReleaseType::Alpha, i + 1))
    } else if word_ci_at(cs, i, &vec!['b']) {
        Some((PreReleaseType::Beta, i + 1))
    } else if word_ci_at(cs, i, &vec!['c']) {
        Some((PreReleaseType::Rc, i + 1))
    } else {
        None
    }
}

fn post_label_at(cs: &Vec<char>, i: usize) -> (r: Option<usize>)
    ensures
        match r {
            Some(x) => post_label(cs@, i as int) == Some(x as int) && x <= cs.len(),
            None => post_label(cs@, i as int) is None,
        },
{
    if word_exact_at(cs, i, &vec!['p', 'o', 's', 't']) {
        Some(i + 4)
    } else if word_exact_at(cs, i, &vec!['r', 'e', 'v']) {
        Some(i + 3)
    } else if word_exact_at(cs, i, &vec!['r']) {
        Some(i + 1)
    } else {
        None
    }
}

/// The number after a label; `None` where it does not fit in a `u32`.
fn label_number_at(cs: &Vec<char>, m: usize) -> (r: Option<(u32, usize)>)
    requires
        m <= cs.len(),
    ensures
        match r {
            Some(x) => label_number(cs@, m as int) == (x.0 as nat, x.1 as int) && x.1 <= cs.len(),
            None => label_number(cs@, m as int).0 > u32::MAX,
        },
{
    let k = after_sep_at(cs, m);
    let (e, v) = scan_number(cs, k);
    if e > k {
        match v {
            Some(v) => Some((v, e)),
            None => None,
        }
    } else {
        Some((0, k))
    }
}

fn epoch_at(cs: &Vec<char>, i: usize) -> (r: Option<(Option<u32>, usize)>)
    requires
        i <= cs.len(),
    ensures
        match r {
            Some(x) => epoch_part(cs@, i as int) == (opt_nat(x.0), x.1 as int) && x.1 <= cs.len(),
            None => epoch_part(cs@, i as int).0 is Some && epoch_part(cs@, i as int).0->0 > u32::MAX,
        },
{
    let (j, v) = scan_number(cs, i);
    if j > i && j < cs.len() && cs[j] == '!' {
        match v {
            Some(v) => Some((Some(v), j + 1)),
            None => None,
        }
    } else {
        Some((None, i))
    }
}

pub open spec fn nats(v: Seq<u32>) -> Seq<nat> {
    v.map_values(|x: u32| x as nat)
}

fn release_at(cs: &Vec<char>, i: usize) -> (r: Option<(Vec<u32>, usize)>)
    requires
        i < cs.len(),
    ensures
        match r {
            Some(x) => release_part(cs@, i as int) == (nats(x.0@), x.1 as int) && x.1 <= cs.len(),
            None => exists|k: int|
                0 <= k < release_part(cs@, i as int).0.len() && #[trigger] release_part(cs@, i as int).0[k]
                    > u32::MAX,
        },
{
    let ghost s = cs@;
    let mut rel: Vec<u32> = Vec::new();
    let mut j = i;
    assert(release_part(s, i as int).0 =~= nats(rel@) + release_part(s, j as int).0);
    loop
        invariant
            i <= j < cs.len(),
            s == cs@,
            release_part(s, i as int).0 == nats(rel@) + release_part(s, j as int).0,
            release_part(s, i as int).1 == release_part(s, j as int).1,
        decreases cs.len() - j,
    {
        let (e, v) = scan_number(cs, j);
        let v = match v {
            Some(v) => v,
            None => {
                assert(release_part(s, i as int).0[rel.len() as int] > u32::MAX);
                return None;
            },
        };
        let ghost before = rel@;
        rel.push(v);
        assert(nats(rel@) =~= nats(before).push(v as nat));
        if cs.len() - e > 1 && cs[e] == '.' && digit_char(cs[e + 1]) {
            assert(nats(rel@) + release_part(s, e + 1).0 =~= nats(before) + release_part(s, j as int).0);
            j = e + 1;
        } else {
            assert(nats(rel@) =~= nats(before) + release_part(s, j as int).0);
            return Some((rel, e));
        }
    }
}

fn pre_at(cs: &Vec<char>, i: usize) -> (r: Option<(Option<(PreReleaseType, u32)>, usize)>)
    requires
        i <= cs.len(),
    ensures
        match r {
            Some(x) => x.1 <= cs.len() && pre_part(cs@, i as int).1 == x.1 as int && match x.0 {
                Some(p) => pre_part(cs@, i as int).0 == Some((p.0, p.1 as nat)),
                None => pre_part(cs@, i as int).0 is None,
            },
            None => pre_part(cs@, i as int).0 is Some && (pre_part(cs@, i as int).0->0).1 > u32::MAX,
        },
{
    let k = after_sep_at(cs, i);
    match pre_label_at(cs, k) {
        Some((t, m)) => {
            match label_number_at(cs, m) {
                Some((v, e)) => Some((Some((t, v)), e)),
                None => None,
            }
        },
        None => Some((None, i)),
    }
}

fn post_at(cs: &Vec<char>, i: usize) -> (r: Option<(Option<u32>, usize)>)
    requires
        i <= cs.len(),
    ensures
        match r {
            Some(x) => post_part(cs@, i as int) == (opt_nat(x.0), x.1 as int) && x.1 <= cs.len(),
            None => post_part(cs@, i as int).0 is Some && post_part(cs@, i as int).0->0 > u32::MAX,
        },
{
    if cs.len() - i > 1 && cs[i] == '-' && digit_char(cs[i + 1]) {
        let (e, v) = scan_number(cs, i + 1);
        return match v {
            Some(v) => Some((Some(v), e)),
            None => None,
        };
    }
    let k = after_sep_at(cs, i);
    match post_label_at(cs, k) {
        Some(m) => match label_number_at(cs, m) {
            Some((v, e)) => Some((Some(v), e)),
            None => None,
        },
        None => Some((None, i)),
    }
}

fn dev_at(cs: &Vec<char>, i: usize) -> (r: Option<(Option<u32>, usize)>)
    requires
        i <= cs.len(),
    ensures
        match r {
            Some(x) => dev_part(cs@, i as int) == (opt_nat(x.0), x.1 as int) && x.1 <= cs.len(),
            None => dev_part(cs@, i as int).0 is Some && dev_part(cs@, i as int).0->0 > u32::MAX,
        },
{
    let k = after_sep_at(cs, i);
    if word_exact_at(cs, k, &vec!['d', 'e', 'v']) {
        match label_number_at(cs, k + 3) {
            Some((v, e)) => Some((Some(v), e)),
            None => None,
        }
    } else {
        Some((None, i))
    }
}

fn alnum_end(cs: &Vec<char>, j: usize) -> (r: usize)
    requires
        j <= cs.len(),
    ensures
        r as int == j + alnum_len(cs@, j as int),
        r <= cs.len(),
{
    let mut a = j;
    while a < cs.len() && alnum_char(cs[a])
        invariant
            j <= a <= cs.len(),
            alnum_len(cs@, j as int) == (a - j) + alnum_len(cs@, a as int),
        decreases cs.len() - a,
    {
        a = a + 1;
    }
    a
}

fn local_end_at(cs: &Vec<char>, j0: usize) -> (r: usize)
    requires
        j0 <= cs.len(),
    ensures
        r as int == local_end(cs@, j0 as int),
        j0 <= r <= cs.len(),
{
    let mut j = j0;
    loop
        invariant
            j0 <= j <= cs.len(),
            local_end(cs@, j0 as int) == local_end(cs@, j as int),
        decreases cs.len() - j,
    {
        let a = alnum_end(cs, j);
        if a > j && cs.len() - a > 1 && sep_char(cs[a]) && alnum_char(cs[a + 1]) {
            j = a + 1;
        } else {
            return a;
        }
    }
}

/// Relies on std's `String::push`: it appends the character to the end of the string.
#[verifier::external_body]
pub(crate) fn push_char(s: &mut String, c: char)
    ensures
        final(s)@ == old(s)@.push(c),
{
    s.push(c)
}

fn local_at(cs: &Vec<char>, i: usize) -> (r: (Option<String>, usize))
    requires
        i <= cs.len(),
    ensures
        r.1 as int == local_part(cs@, i as int).1,
        r.1 <= cs.len(),
        match r.0 {
            Some(l) => local_part(cs@, i as int).0 is Some && l@ == normalize_local(
                local_part(cs@, i as int).0->0,
            ),
            None => local_part(cs@, i as int).0 is None,
        },
{
    if !(cs.len() - i > 1 && cs[i] == '+' && alnum_char(cs[i + 1])) {
        return (None, i);
    }
    let e = local_end_at(cs, i + 1);
    let mut l = String::new();
    let mut k = i + 1;
    assert(l@ =~= normalize_local(cs@.subrange(i + 1, k as int)));
    while k < e
        invariant
            i + 1 <= k <= e <= cs.len(),
            l@ == normalize_local(cs@.subrange(i + 1, k as int)),
        decreases e - k,
    {
        let c = cs[k];
        let d = if sep_char(c) {
            '.'
        } else {
            lower_char(c)
        };
        assert(cs@.subrange(i + 1, k + 1) =~= cs@.subrange(i + 1, k as int).push(c));
        push_char(&mut l, d);
        k = k + 1;
        assert(l@ =~= normalize_local(cs@.subrange(i + 1, k as int)));
    }
    (Some(l), e)
}

/// Whether every number in `p` fits in a `u32`.
pub open spec fn fits(p: Parsed) -> bool {
    &&& p.epoch is Some ==> p.epoch->0 <= u32::MAX
    &&& forall|k: int| 0 <= k < p.release.len() ==> #[trigger] p.release[k] <= u32::MAX
    &&& p.pre is Some ==> (p.pre->0).1 <= u32::MAX
    &&& p.post is Some ==> p.post->0 <= u32::MAX
    &&& p.dev is Some ==> p.dev->0 <= u32::MAX
}

/// Whether `v` holds what `p` denotes, with the local label normalized.
pub open spec fn holds(v: &Version, p: Parsed) -> bool {
    &&& opt_nat(v.epoch) == p.epoch
    &&& nats(v.release@) == p.release
    &&& match v.pre {
        Some(q) => p.pre is Some && q.0 == (p.pre->0).0 && nats(q.1@) == seq![(p.pre->0).1],
        None => p.pre is None,
    }
    &&& opt_nat(v.post) == p.post
    &&& opt_nat(v.dev) == p.dev
    &&& match v.local {
        Some(l) => p.local is Some && l@ == normalize_local(p.local->0),
        None => p.local is None,
    }
}

/// Parses a version identifier.
///
/// It succeeds exactly where the text follows the grammar and every number in it fits
/// in a `u32`; otherwise it fails with `MalformedVersion` carrying the text.
#[verifier::rlimit(50)]
pub fn parse_version(version_string: String) -> (r: Result<Version, Error>)
    ensures
        match r {
            Ok(v) => parse_spec(version_string@) is Some && fits(parse_spec(version_string@)->0)
                && holds(&v, parse_spec(version_string@)->0) && v.version_string@ == version_string@,
            Err(e) => (parse_spec(version_string@) is None || !fits(parse_spec(version_string@)->0))
                && (e matches Error::MalformedVersion(t) && t@ == version_string@),
        },
{
    let cs = crate::local::chars_of(&version_string);
    let ghost s = cs@;
    let i0 = skip_spaces_at(&cs, 0);
    let i1 = if i0 < cs.len() && cs[i0] == 'v' {
        i0 + 1
    } else {
        i0
    };
    let (epoch, i2) = match epoch_at(&cs, i1) {
        Some(x) => x,
        None => {
            assert(parse_spec(s) is None || !fits(parse_spec(s)->0));
            return Err(Error::MalformedVersion(version_string));
        },
    };
    if !(i2 < cs.len() && digit_char(cs[i2])) {
        return Err(Error::MalformedVersion(version_string));
    }
    let (release, i3) = match release_at(&cs, i2) {
        Some(x) => x,
        None => {
            proof {
                let k = choose|k: int|
                    0 <= k < release_part(s, i2 as int).0.len() && #[trigger] release_part(s, i2 as int).0[k]
                        > u32::MAX;
                if parse_spec(s) is Some {
                    assert(parse_spec(s)->0.release[k] > u32::MAX);
                }
            }
            return Err(Error::MalformedVersion(version_string));
        },
    };
    let (pre, i4) = match pre_at(&cs, i3) {
        Some(x) => x,
        None => return Err(Error::MalformedVersion(version_string)),
    };
    let (post, i5) = match post_at(&cs, i4) {
        Some(x) => x,
        None => return Err(Error::MalformedVersion(version_string)),
    };
    let (dev, i6) = match dev_at(&cs, i5) {
        Some(x) => x,
        None => return Err(Error::MalformedVersion(version_string)),
    };
    let (local, i7) = local_at(&cs, i6);
    if skip_spaces_at(&cs, i7) != cs.len() {
        return Err(Error::MalformedVersion(version_string));
    }
    let pre = match pre {
        Some((t, n)) => {
            let ns: Vec<u32> = vec![n];
            assert(nats(ns@) =~= seq![n as nat]);
            Some((t, ns))
        },
        None => None,
    };
    Ok(Version { epoch, release, pre, post, dev, local, version_string })
}

} // verus!
