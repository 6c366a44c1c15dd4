//! Positional notation: the number that a digit string denotes, and the
//! digit string of a number, in any base from 2 to 256.
use vstd::arithmetic::div_mod::*;
use vstd::arithmetic::mul::*;
use vstd::prelude::*;

verus! {

/// `b` raised to the power `e`.
pub open spec fn pow_nat(b: nat, e: nat) -> nat
    decreases e,
{
    if e == 0 {
        1
    } else {
        b * pow_nat(b, (e - 1) as nat)
    }
}

/// The number that the digits `s` denote in base `b`, most significant digit first.
pub open spec fn radix_value(s: Seq<u8>, b: nat) -> nat
    decreases s.len(),
{
    if s.len() == 0 {
        0
    } else {
        radix_value(s.drop_last(), b) * b + s.last() as nat
    }
}

/// The `len` lowest base-`b` digits of `n`, most significant digit first.
pub open spec fn radix_digits(n: nat, len: nat, b: nat) -> Seq<u8>
    decreases len,
{
    if len == 0 {
        Seq::empty()
    } else {
        radix_digits(n / b, (len - 1) as nat, b).push((n % b) as u8)
    }
}

/// Every digit of `s` is below `b`.
pub open spec fn digits_below(s: Seq<u8>, b: nat) -> bool {
    forall|i: int| 0 <= i < s.len() ==> (#[trigger] s[i] as nat) < b
}

pub proof fn lemma_pow_positive(b: nat, e: nat)
    requires
        b > 0,
    ensures
        pow_nat(b, e) > 0,
    decreases e,
{
    if e > 0 {
        lemma_pow_positive(b, (e - 1) as nat);
        lemma_mul_strictly_positive(b as int, pow_nat(b, (e - 1) as nat) as int);
    }
}

pub proof fn lemma_pow_monotone(b: nat, e1: nat, e2: nat)
    requires
        b > 0,
        e1 <= e2,
    ensures
        pow_nat(b, e1) <= pow_nat(b, e2),
    decreases e2,
{
    if e1 < e2 {
        lemma_pow_monotone(b, e1, (e2 - 1) as nat);
        lemma_pow_positive(b, (e2 - 1) as nat);
        lemma_mul_increases(b as int, pow_nat(b, (e2 - 1) as nat) as int);
    }
}

pub proof fn lemma_digits_len(n: nat, len: nat, b: nat)
    requires
        b > 0,
    ensures
        radix_digits(n, len, b).len() == len,
    decreases len,
{
    if len > 0 {
        lemma_digits_len(n / b, (len - 1) as nat, b);
        assert(radix_digits(n, len, b) == radix_digits(n / b, (len - 1) as nat, b).push(
            (n % b) as u8,
        ));
    }
}

/// The digit at position `i` of the `len`-digit string of `n` is `n / b^(len-1-i) % b`.
pub proof fn lemma_digit_at(n: nat, len: nat, b: nat, i: int)
    requires
        1 < b <= 256,
        0 <= i < len,
    ensures
        radix_digits(n, len, b).len() == len,
        radix_digits(n, len, b)[i] as nat == (n / pow_nat(b, (len - 1 - i) as nat)) % b,
    decreases len,
{
    lemma_digits_len(n, len, b);
    lemma_digits_len(n / b, (len - 1) as nat, b);
    lemma_mod_bound(n as int, b as int);
    if i == len - 1 {
        assert(pow_nat(b, 0) == 1);
    } else {
        lemma_digit_at(n / b, (len - 1) as nat, b, i);
        let k = (len - 2 - i) as nat;
        lemma_pow_positive(b, k);
        lemma_div_denominator(n as int, b as int, pow_nat(b, k) as int);
        assert(pow_nat(b, (k + 1) as nat) == b * pow_nat(b, k));
        assert((len - 1 - i) as nat == (k + 1) as nat);
    }
}

/// Reading back the `len` digits of `n` gives `n`, when `n` has at most `len` digits.
pub proof fn lemma_value_of_digits(n: nat, len: nat, b: nat)
    requires
        1 < b <= 256,
        n < pow_nat(b, len),
    ensures
        radix_value(radix_digits(n, len, b), b) == n,
    decreases len,
{
    if len > 0 {
        let p = pow_nat(b, (len - 1) as nat);
        assert(n / b < p) by (nonlinear_arith)
            requires
                n < b * p,
                b > 0,
        ;
        lemma_value_of_digits(n / b, (len - 1) as nat, b);
        let d = radix_digits(n / b, (len - 1) as nat, b);
        assert(radix_digits(n, len, b).drop_last() =~= d);
        lemma_fundamental_div_mod(n as int, b as int);
        lemma_mod_bound(n as int, b as int);
        lemma_mul_is_commutative(b as int, (n / b) as int);
    }
}

/// A digit string denotes a number below `b^len`.
pub proof fn lemma_value_bound(s: Seq<u8>, b: nat)
    requires
        b > 0,
        digits_below(s, b),
    ensures
        radix_value(s, b) < pow_nat(b, s.len()),
    decreases s.len(),
{
    if s.len() > 0 {
        let t = s.drop_last();
        assert(digits_below(t, b)) by {
            assert forall|i: int| 0 <= i < t.len() implies (#[trigger] t[i] as nat) < b by {
                assert(t[i] == s[i]);
            }
        }
        lemma_value_bound(t, b);
        let v = radix_value(t, b);
        let p = pow_nat(b, t.len());
        let x = s.last() as nat;
        assert(s.last() == s[s.len() - 1]);
        assert(v * b + x < b * p) by (nonlinear_arith)
            requires
                v < p,
                x < b,
        ;
    }
}

/// Writing out the number that a digit string denotes gives back the digit string.
pub proof fn lemma_digits_of_value(s: Seq<u8>, b: nat)
    requires
        1 < b <= 256,
        digits_below(s, b),
    ensures
        radix_digits(radix_value(s, b), s.len(), b) == s,
    decreases s.len(),
{
    if s.len() > 0 {
        let t = s.drop_last();
        assert(digits_below(t, b)) by {
            assert forall|i: int| 0 <= i < t.len() implies (#[trigger] t[i] as nat) < b by {
                assert(t[i] == s[i]);
            }
        }
        let v = radix_value(s, b);
        let w = radix_value(t, b);
        assert(s.last() == s[s.len() - 1]);
        lemma_fundamental_div_mod_converse(v as int, b as int, w as int, s.last() as int);
        lemma_digits_of_value(t, b);
        assert(radix_digits(v, s.len(), b) =~= t.push(s.last()));
        assert(t.push(s.last()) =~= s);
    }
}

/// The number denoted by the first `i + 1` digits, from that of the first `i`.
pub proof fn lemma_value_take_step(s: Seq<u8>, b: nat, i: int)
    requires
        0 <= i < s.len(),
    ensures
        radix_value(s.take(i + 1), b) == radix_value(s.take(i), b) * b + s[i] as nat,
{
    assert(s.take(i + 1).drop_last() =~= s.take(i));
}

/// `s` comes before `t` in dictionary order: at the first position where they
/// differ, `s` has the smaller element.
pub open spec fn lex_less(s: Seq<u8>, t: Seq<u8>) -> bool {
    exists|i: int| 0 <= i < s.len() && i < t.len() && s.take(i) == t.take(i) && #[trigger] s[i] < t[i]
}

/// Among digit strings of one length, the smaller number comes first in dictionary order.
pub proof fn lemma_value_order_is_lex_order(s: Seq<u8>, t: Seq<u8>, b: nat)
    requires
        1 < b <= 256,
        s.len() == t.len(),
        digits_below(s, b),
        digits_below(t, b),
        radix_value(s, b) < radix_value(t, b),
    ensures
        lex_less(s, t),
    decreases s.len(),
{
    let n = s.len();
    let s1 = s.drop_last();
    let t1 = t.drop_last();
    let x = s.last() as nat;
    let y = t.last() as nat;
    assert(s.last() == s[n - 1] && t.last() == t[n - 1]);
    assert(digits_below(s1, b)) by {
        assert forall|i: int| 0 <= i < s1.len() implies (#[trigger] s1[i] as nat) < b by {
            assert(s1[i] == s[i]);
        }
    }
    assert(digits_below(t1, b)) by {
        assert forall|i: int| 0 <= i < t1.len() implies (#[trigger] t1[i] as nat) < b by {
            assert(t1[i] == t[i]);
        }
    }
    let v = radix_value(s1, b);
    let w = radix_value(t1, b);
    if v < w {
        lemma_value_order_is_lex_order(s1, t1, b);
        let i = choose|i: int| 0 <= i < s1.len() && i < t1.len() && s1.take(i) == t1.take(i) && #[trigger] s1[i] < t1[i];
        assert(s.take(i) =~= s1.take(i));
        assert(t.take(i) =~= t1.take(i));
        assert(s[i] == s1[i] && t[i] == t1[i]);
    } else if v == w {
        lemma_digits_of_value(s1, b);
        lemma_digits_of_value(t1, b);
        assert(s1 == t1);
        assert(s.take(n - 1) =~= s1);
        assert(t.take(n - 1) =~= t1);
        assert(s[n - 1] < t[n - 1]);
    } else {
        assert(v * b + x >= w * b + y) by (nonlinear_arith)
            requires
                v > w,
                y < b,
        ;
    }
}

/// Dictionary order is strict: no sequence comes before itself, and of two
/// sequences at most one comes before the other.
pub proof fn lemma_lex_strict(s: Seq<u8>, t: Seq<u8>)
    ensures
        !lex_less(s, s),
        !(lex_less(s, t) && lex_less(t, s)),
{
    if lex_less(s, t) && lex_less(t, s) {
        let i = choose|i: int| 0 <= i < s.len() && i < t.len() && s.take(i) == t.take(i) && #[trigger] s[i] < t[i];
        let j = choose|j: int| 0 <= j < t.len() && j < s.len() && t.take(j) == s.take(j) && #[trigger] t[j] < s[j];
        if i < j {
            assert(s.take(j)[i] == t.take(j)[i]);
        } else if j < i {
            assert(s.take(i)[j] == t.take(i)[j]);
        }
    }
}

/// The first `a` of the `a + k` digits of `n` are the `a` digits of `n / b^k`.
pub proof fn lemma_digits_take(n: nat, a: nat, k: nat, b: nat)
    requires
        1 < b,
    ensures
        radix_digits(n, a + k, b).take(a as int) == radix_digits(n / pow_nat(b, k), a, b),
    decreases k,
{
    lemma_digits_len(n, a + k, b);
    lemma_digits_len(n / pow_nat(b, k), a, b);
    if k == 0 {
        assert(pow_nat(b, 0) == 1);
        assert(n / 1 == n);
        assert(radix_digits(n, a, b).take(a as int) =~= radix_digits(n, a, b));
    } else {
        let k1 = (k - 1) as nat;
        lemma_digits_take(n / b, a, k1, b);
        lemma_digits_len(n / b, a + k1, b);
        assert(radix_digits(n, a + k, b) == radix_digits(n / b, a + k1, b).push((n % b) as u8));
        assert(radix_digits(n, a + k, b).take(a as int) =~= radix_digits(n / b, a + k1, b).take(
            a as int,
        ));
        lemma_pow_positive(b, k1);
        lemma_div_denominator(n as int, b as int, pow_nat(b, k1) as int);
        assert(pow_nat(b, k) == b * pow_nat(b, k1));
        assert((n / b) / pow_nat(b, k1) == n / pow_nat(b, k));
    }
}

} // verus!
