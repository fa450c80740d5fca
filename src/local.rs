use vstd::prelude::*;
use vstd::string::StrSliceExecFns;

use crate::digits::{
    all_digits, char_codes, digits_value, lemma_digits_cmp_same_len, lemma_digits_value_bound,
    lemma_digits_value_lower, pow10,
};
use crate::order::{cmp_int, cmp_lex_vec, ints64};
use crate::version::{cmp_local, cmp_part, cmp_parts, is_numeric, split_on};

verus! {

pub open spec fn parts_view(v: Seq<Vec<char>>) -> Seq<Seq<char>> {
    v.map_values(|p: Vec<char>| p@)
}

/// The characters of a string, in order.
pub fn chars_of(s: &String) -> (r: Vec<char>)
    ensures
        r@ == s@,
{
    let t = s.as_str();
    let n = t.unicode_len();
    let mut r: Vec<char> = Vec::new();
    let mut i: usize = 0;
    while i < n
        invariant
            n == t@.len(),
            t@ == s@,
            i <= n,
            r@ == t@.subrange(0, i as int),
        decreases n - i,
    {
        r.push(t.get_char(i));
        i = i + 1;
        assert(r@ =~= t@.subrange(0, i as int));
    }
    assert(r@ =~= t@);
    r
}

/// Cuts a sequence of characters at each `sep`.
pub fn split_parts(cs: &Vec<char>, sep: char) -> (r: Vec<Vec<char>>)
    ensures
        parts_view(r@) == split_on(cs@, sep),
{
    let mut parts: Vec<Vec<char>> = Vec::new();
    let mut cur: Vec<char> = Vec::new();
    let mut i: usize = 0;
    assert(cs@.subrange(0, 0) =~= Seq::<char>::empty());
    assert(parts_view(parts@).push(cur@) =~= split_on(cs@.subrange(0, 0), sep));
    while i < cs.len()
        invariant
            i <= cs.len(),
            parts_view(parts@).push(cur@) == split_on(cs@.subrange(0, i as int), sep),
        decreases cs.len() - i,
    {
        let c = cs[i];
        let ghost pre = cs@.subrange(0, i as int);
        let ghost next = cs@.subrange(0, i + 1);
        assert(next.drop_last() =~= pre);
        assert(next.last() == c);
        if c == sep {
            parts.push(cur);
            cur = Vec::new();
            assert(parts_view(parts@).push(cur@) =~= split_on(next, sep));
        } else {
            let ghost old_cur = cur@;
            cur.push(c);
            assert(parts_view(parts@).push(cur@) =~= split_on(pre, sep).update(
                split_on(pre, sep).len() - 1,
                old_cur.push(c),
            ));
        }
        i = i + 1;
    }
    assert(cs@.subrange(0, cs.len() as int) =~= cs@);
    parts.push(cur);
    assert(parts_view(parts@) =~= split_on(cs@, sep));
    parts
}

fn numeric_part(x: &Vec<char>) -> (r: bool)
    ensures
        r == is_numeric(x@),
{
    if x.len() == 0 {
        return false;
    }
    let mut i: usize = 0;
    while i < x.len()
        invariant
            i <= x.len(),
            forall|j: int| 0 <= j < i ==> crate::digits::is_digit(#[trigger] x@[j]),
        decreases x.len() - i,
    {
        if !('0' <= x[i] && x[i] <= '9') {
            return false;
        }
        i = i + 1;
    }
    true
}

/// The codes of the characters of `x` from index `from` on.
fn codes_from(x: &Vec<char>, from: usize) -> (r: Vec<u64>)
    requires
        from <= x.len(),
    ensures
        ints64(r@) == char_codes(x@.skip(from as int)),
{
    let mut r: Vec<u64> = Vec::new();
    let mut i: usize = from;
    while i < x.len()
        invariant
            from <= i <= x.len(),
            ints64(r@) == char_codes(x@.subrange(from as int, i as int)),
        decreases x.len() - i,
    {
        let c = x[i];
        let code = c as u32 as u64;
        assert(code as int == c as u32 as int);
        let ghost sub = x@.subrange(from as int, i as int);
        let ghost old_r = r@;
        assert(x@.subrange(from as int, i + 1) =~= sub.push(c));
        assert(char_codes(sub.push(c)) =~= char_codes(sub).push(c as u32 as int));
        r.push(code);
        assert(ints64(r@) =~= ints64(old_r).push(code as int));
        i = i + 1;
    }
    assert(x@.subrange(from as int, x.len() as int) =~= x@.skip(from as int));
    r
}

/// Leading zeros add nothing to the value of a run of digits.
proof fn lemma_leading_zeros(x: Seq<char>, z: int)
    requires
        0 <= z <= x.len(),
        forall|j: int| 0 <= j < z ==> x[j] == '0',
    ensures
        digits_value(x) == digits_value(x.skip(z)),
    decreases z,
{
    if z > 0 {
        assert(x.drop_first().skip(z - 1) =~= x.skip(z));
        lemma_leading_zeros(x.drop_first(), z - 1);
        assert(crate::digits::digit_of(x[0]) == 0);
        assert(x.skip(0) =~= x);
    } else {
        assert(x.skip(0) =~= x);
    }
}

/// The position of the first character of `x` that is not `'0'`.
fn skip_zeros(x: &Vec<char>) -> (z: usize)
    ensures
        z <= x.len(),
        forall|j: int| 0 <= j < z ==> x@[j] == '0',
        z < x.len() ==> x@[z as int] != '0',
{
    let mut z: usize = 0;
    while z < x.len() && x[z] == '0'
        invariant
            z <= x.len(),
            forall|j: int| 0 <= j < z ==> x@[j] == '0',
        decreases x.len() - z,
    {
        z = z + 1;
    }
    z
}

/// Compares two runs of digits by value, whatever their length.
fn cmp_numeric(x: &Vec<char>, y: &Vec<char>) -> (r: i8)
    requires
        all_digits(x@),
        all_digits(y@),
    ensures
        r as int == cmp_int(digits_value(x@) as int, digits_value(y@) as int),
{
    let zx = skip_zeros(x);
    let zy = skip_zeros(y);
    let ghost sx = x@.skip(zx as int);
    let ghost sy = y@.skip(zy as int);
    proof {
        lemma_leading_zeros(x@, zx as int);
        lemma_leading_zeros(y@, zy as int);
        assert(all_digits(sx));
        assert(all_digits(sy));
        lemma_digits_value_bound(sx);
        lemma_digits_value_bound(sy);
        if sx.len() > 0 {
            lemma_digits_value_lower(sx);
        }
        if sy.len() > 0 {
            lemma_digits_value_lower(sy);
        }
    }
    let lx = x.len() - zx;
    let ly = y.len() - zy;
    if lx < ly {
        proof {
            lemma_pow10_mono(sx.len(), (sy.len() - 1) as nat);
        }
        -1
    } else if lx > ly {
        proof {
            lemma_pow10_mono(sy.len(), (sx.len() - 1) as nat);
        }
        1
    } else {
        proof {
            lemma_digits_cmp_same_len(sx, sy);
        }
        cmp_lex_vec(&codes_from(x, zx), &codes_from(y, zy))
    }
}

proof fn lemma_pow10_mono(m: nat, n: nat)
    requires
        m <= n,
    ensures
        pow10(m) <= pow10(n),
    decreases n,
{
    if m < n {
        lemma_pow10_mono(m, (n - 1) as nat);
        crate::digits::lemma_pow10_positive((n - 1) as nat);
    }
}

/// Compares two parts of local labels.
pub fn cmp_part_vec(x: &Vec<char>, y: &Vec<char>) -> (r: i8)
    ensures
        r as int == cmp_part(x@, y@),
{
    let nx = numeric_part(x);
    let ny = numeric_part(y);
    if nx && ny {
        cmp_numeric(x, y)
    } else if nx {
        1
    } else if ny {
        -1
    } else {
        assert(x@.skip(0) =~= x@);
        assert(y@.skip(0) =~= y@);
        cmp_lex_vec(&codes_from(x, 0), &codes_from(y, 0))
    }
}

/// Compares two sequences of parts part by part, a proper prefix first.
pub fn cmp_parts_vec(a: &Vec<Vec<char>>, b: &Vec<Vec<char>>) -> (r: i8)
    ensures
        r as int == cmp_parts(parts_view(a@), parts_view(b@)),
{
    let ghost sa = parts_view(a@);
    let ghost sb = parts_view(b@);
    let mut i: usize = 0;
    assert(sa.skip(0) =~= sa);
    assert(sb.skip(0) =~= sb);
    while i < a.len() && i < b.len()
        invariant
            i <= a.len(),
            i <= b.len(),
            sa == parts_view(a@),
            sb == parts_view(b@),
            cmp_parts(sa, sb) == cmp_parts(sa.skip(i as int), sb.skip(i as int)),
        decreases a.len() - i,
    {
        let c = cmp_part_vec(&a[i], &b[i]);
        if c != 0 {
            return c;
        }
        assert(sa.skip(i as int).drop_first() =~= sa.skip(i + 1));
        assert(sb.skip(i as int).drop_first() =~= sb.skip(i + 1));
        i = i + 1;
    }
    if i < a.len() {
        1
    } else if i < b.len() {
        -1
    } else {
        0
    }
}

/// Compares two optional local labels: none comes before any.
pub fn cmp_local_opt(a: &Option<String>, b: &Option<String>) -> (r: i8)
    ensures
        r as int == cmp_local(
            match a {
                Some(s) => Some(s@),
                None => None,
            },
            match b {
                Some(s) => Some(s@),
                None => None,
            },
        ),
{
    match (a, b) {
        (None, None) => 0,
        (None, Some(_)) => -1,
        (Some(_), None) => 1,
        (Some(x), Some(y)) => {
            let px = split_parts(&chars_of(x), '.');
            let py = split_parts(&chars_of(y), '.');
            cmp_parts_vec(&px, &py)
        },
    }
}

} // verus!
