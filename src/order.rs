use vstd::prelude::*;

verus! {

/// Three-way comparison of two integers: -1, 0 or 1.
pub open spec fn cmp_int(x: int, y: int) -> int {
    if x < y {
        -1
    } else if x > y {
        1
    } else {
        0
    }
}

/// The element at `i`, or 0 past the end: a sequence read as if padded with zeros.
pub open spec fn at_or_zero(a: Seq<int>, i: int) -> int {
    if 0 <= i < a.len() {
        a[i]
    } else {
        0
    }
}

/// Compares two sequences element by element after padding the shorter one with zeros.
pub open spec fn cmp_padded(a: Seq<int>, b: Seq<int>) -> int
    decreases a.len() + b.len(),
{
    if a.len() == 0 && b.len() == 0 {
        0
    } else if at_or_zero(a, 0) != at_or_zero(b, 0) {
        cmp_int(at_or_zero(a, 0), at_or_zero(b, 0))
    } else {
        cmp_padded(
            if a.len() == 0 { a } else { a.drop_first() },
            if b.len() == 0 { b } else { b.drop_first() },
        )
    }
}

/// Lexicographic comparison, where a proper prefix comes first.
pub open spec fn cmp_lex(a: Seq<int>, b: Seq<int>) -> int
    decreases a.len(),
{
    if a.len() == 0 {
        if b.len() == 0 {
            0
        } else {
            -1
        }
    } else if b.len() == 0 {
        1
    } else if a[0] != b[0] {
        cmp_int(a[0], b[0])
    } else {
        cmp_lex(a.drop_first(), b.drop_first())
    }
}

/// The three facts that make a three-way comparison a total preorder, on three values.
pub open spec fn preorder_laws(ab: int, ba: int, ac: int, bc: int, ca: int, cb: int) -> bool {
    &&& -1 <= ab <= 1
    &&& ab == -ba
    &&& ab == 0 ==> ac == bc
    &&& (ab < 0 && bc < 0) ==> ac < 0
    &&& ca == -ac
    &&& cb == -bc
}

pub proof fn lemma_cmp_padded_laws(a: Seq<int>, b: Seq<int>, c: Seq<int>)
    ensures
        preorder_laws(
            cmp_padded(a, b),
            cmp_padded(b, a),
            cmp_padded(a, c),
            cmp_padded(b, c),
            cmp_padded(c, a),
            cmp_padded(c, b),
        ),
    decreases a.len() + b.len() + c.len(),
{
    let ta = if a.len() == 0 { a } else { a.drop_first() };
    let tb = if b.len() == 0 { b } else { b.drop_first() };
    let tc = if c.len() == 0 { c } else { c.drop_first() };
    if a.len() + b.len() + c.len() > 0 {
        lemma_cmp_padded_laws(ta, tb, tc);
    }
}

pub proof fn lemma_cmp_lex_laws(a: Seq<int>, b: Seq<int>, c: Seq<int>)
    ensures
        preorder_laws(
            cmp_lex(a, b),
            cmp_lex(b, a),
            cmp_lex(a, c),
            cmp_lex(b, c),
            cmp_lex(c, a),
            cmp_lex(c, b),
        ),
    decreases a.len() + b.len() + c.len(),
{
    let ta = if a.len() == 0 { a } else { a.drop_first() };
    let tb = if b.len() == 0 { b } else { b.drop_first() };
    let tc = if c.len() == 0 { c } else { c.drop_first() };
    if a.len() + b.len() + c.len() > 0 {
        lemma_cmp_lex_laws(ta, tb, tc);
    }
}

pub open spec fn ints64(s: Seq<u64>) -> Seq<int> {
    s.map_values(|x: u64| x as int)
}

/// What is left of `a` from index `i` on; empty past the end.
pub open spec fn rest_from(a: Seq<int>, i: int) -> Seq<int> {
    if i < a.len() {
        a.skip(i)
    } else {
        Seq::empty()
    }
}

pub fn cmp_u64(x: u64, y: u64) -> (r: i8)
    ensures
        r as int == cmp_int(x as int, y as int),
{
    if x < y {
        -1
    } else if x > y {
        1
    } else {
        0
    }
}

/// Lexicographic comparison of two vectors, a proper prefix first.
pub fn cmp_lex_vec(a: &Vec<u64>, b: &Vec<u64>) -> (r: i8)
    ensures
        r as int == cmp_lex(ints64(a@), ints64(b@)),
{
    let ghost sa = ints64(a@);
    let ghost sb = ints64(b@);
    let mut i: usize = 0;
    assert(sa.skip(0) =~= sa);
    assert(sb.skip(0) =~= sb);
    while i < a.len() && i < b.len()
        invariant
            i <= a.len(),
            i <= b.len(),
            sa == ints64(a@),
            sb == ints64(b@),
            cmp_lex(sa, sb) == cmp_lex(sa.skip(i as int), sb.skip(i as int)),
        decreases a.len() - i,
    {
        if a[i] != b[i] {
            return cmp_u64(a[i], b[i]);
        }
        assert(sa.skip(i as int).drop_first() =~= sa.skip(i + 1));
        assert(sb.skip(i as int).drop_first() =~= sb.skip(i + 1));
        i = i + 1;
    }
    if i < a.len() {
        1
    } else if i < b.len() {
        -1
    } else {
        0
    }
}

/// Compares two release numbers element by element, the shorter padded with zeros.
pub fn cmp_padded_vec(a: &Vec<u32>, b: &Vec<u32>) -> (r: i8)
    ensures
        r as int == cmp_padded(a@.map_values(|x: u32| x as int), b@.map_values(|x: u32| x as int)),
{
    let ghost sa = a@.map_values(|x: u32| x as int);
    let ghost sb = b@.map_values(|x: u32| x as int);
    let mut i: usize = 0;
    assert(rest_from(sa, 0) =~= sa);
    assert(rest_from(sb, 0) =~= sb);
    while i < a.len() || i < b.len()
        invariant
            i <= a.len() || i <= b.len(),
            sa == a@.map_values(|x: u32| x as int),
            sb == b@.map_values(|x: u32| x as int),
            cmp_padded(sa, sb) == cmp_padded(rest_from(sa, i as int), rest_from(sb, i as int)),
        decreases (if a.len() > b.len() { a.len() } else { b.len() }) - i,
    {
        let x: u32 = if i < a.len() { a[i] } else { 0 };
        let y: u32 = if i < b.len() { b[i] } else { 0 };
        assert(at_or_zero(rest_from(sa, i as int), 0) == x);
        assert(at_or_zero(rest_from(sb, i as int), 0) == y);
        if x != y {
            return cmp_u64(x as u64, y as u64);
        }
        let ghost ra = rest_from(sa, i as int);
        let ghost rb = rest_from(sb, i as int);
        assert((if ra.len() == 0 { ra } else { ra.drop_first() }) =~= rest_from(sa, i + 1));
        assert((if rb.len() == 0 { rb } else { rb.drop_first() }) =~= rest_from(sb, i + 1));
        i = i + 1;
    }
    assert(rest_from(sa, i as int).len() == 0);
    assert(rest_from(sb, i as int).len() == 0);
    0
}

} // verus!
