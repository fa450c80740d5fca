use vstd::prelude::*;

use crate::order::{cmp_int, cmp_lex};

verus! {

pub open spec fn is_digit(c: char) -> bool {
    '0' <= c && c <= '9'
}

pub open spec fn all_digits(d: Seq<char>) -> bool {
    forall|i: int| 0 <= i < d.len() ==> is_digit(#[trigger] d[i])
}

pub open spec fn digit_of(c: char) -> nat {
    (c as nat - '0' as nat) as nat
}

pub open spec fn pow10(n: nat) -> nat
    decreases n,
{
    if n == 0 {
        1
    } else {
        10 * pow10((n - 1) as nat)
    }
}

/// The value of a run of decimal digits, leading zeros included.
pub open spec fn digits_value(d: Seq<char>) -> nat
    decreases d.len(),
{
    if d.len() == 0 {
        0
    } else {
        digit_of(d[0]) * pow10((d.len() - 1) as nat) + digits_value(d.drop_first())
    }
}

pub open spec fn char_codes(x: Seq<char>) -> Seq<int> {
    x.map_values(|c: char| c as u32 as int)
}

pub proof fn lemma_pow10_positive(n: nat)
    ensures
        pow10(n) >= 1,
    decreases n,
{
    if n > 0 {
        lemma_pow10_positive((n - 1) as nat);
    }
}

/// Appending a digit multiplies the value by ten and adds the digit.
pub proof fn lemma_digits_value_push(d: Seq<char>, c: char)
    ensures
        digits_value(d.push(c)) == digits_value(d) * 10 + digit_of(c),
    decreases d.len(),
{
    if d.len() > 0 {
        assert(d.push(c).drop_first() =~= d.drop_first().push(c));
        lemma_digits_value_push(d.drop_first(), c);
        let p = pow10((d.len() - 1) as nat);
        let x = digit_of(d[0]);
        let r = digits_value(d.drop_first());
        assert(pow10(d.len()) == 10 * p);
        assert(d.push(c)[0] == d[0]);
        assert(x * (10 * p) + r * 10 == (x * p + r) * 10) by (nonlinear_arith);
        assert(digits_value(d.push(c)) == x * pow10(d.len()) + digits_value(d.drop_first().push(c)));
        assert(digits_value(d) == x * p + r);
        assert(digits_value(d.push(c)) == x * (10 * p) + r * 10 + digit_of(c));
    } else {
        assert(d.push(c).drop_first() =~= Seq::<char>::empty());
        assert(digits_value(d.push(c)) == digit_of(c) * pow10(0) + digits_value(Seq::<char>::empty()));
        let q = pow10(0);
        let x = digit_of(c);
        assert(q == 1);
        assert(x * q == x) by (nonlinear_arith)
            requires
                q == 1,
        ;
    }
}

/// A run of `n` digits is worth less than ten to the `n`.
pub proof fn lemma_digits_value_bound(d: Seq<char>)
    requires
        all_digits(d),
    ensures
        digits_value(d) < pow10(d.len()),
    decreases d.len(),
{
    if d.len() > 0 {
        lemma_digits_value_bound(d.drop_first());
        let p = pow10((d.len() - 1) as nat);
        let x = digit_of(d[0]);
        assert(x <= 9);
        assert(x * p + p <= 10 * p) by (nonlinear_arith)
            requires
                x <= 9,
        ;
    }
}

/// A run that starts with a nonzero digit is worth at least ten to its length less one.
pub proof fn lemma_digits_value_lower(d: Seq<char>)
    requires
        d.len() > 0,
        all_digits(d),
        d[0] != '0',
    ensures
        digits_value(d) >= pow10((d.len() - 1) as nat),
{
    let p = pow10((d.len() - 1) as nat);
    let x = digit_of(d[0]);
    assert(x >= 1);
    assert(x * p >= p) by (nonlinear_arith)
        requires
            x >= 1,
    ;
}

/// Runs of the same length compare by value as they compare character by character.
pub proof fn lemma_digits_cmp_same_len(a: Seq<char>, b: Seq<char>)
    requires
        a.len() == b.len(),
        all_digits(a),
        all_digits(b),
    ensures
        cmp_int(digits_value(a) as int, digits_value(b) as int) == cmp_lex(
            char_codes(a),
            char_codes(b),
        ),
    decreases a.len(),
{
    if a.len() > 0 {
        let ta = a.drop_first();
        let tb = b.drop_first();
        assert(char_codes(a).drop_first() =~= char_codes(ta));
        assert(char_codes(b).drop_first() =~= char_codes(tb));
        lemma_digits_cmp_same_len(ta, tb);
        lemma_digits_value_bound(ta);
        lemma_digits_value_bound(tb);
        let p = pow10((a.len() - 1) as nat);
        let x = digit_of(a[0]);
        let y = digit_of(b[0]);
        if x < y {
            assert(x * p + p <= y * p) by (nonlinear_arith)
                requires
                    x < y,
            ;
        } else if x > y {
            assert(y * p + p <= x * p) by (nonlinear_arith)
                requires
                    y < x,
            ;
        }
    }
}

} // verus!
