//! Exact integer arithmetic on 128-bit amounts.
use vstd::arithmetic::div_mod::{
    lemma_basic_div, lemma_div_denominator, lemma_div_is_ordered, lemma_fundamental_div_mod,
    lemma_fundamental_div_mod_converse,
};
use vstd::arithmetic::mul::lemma_mul_inequality;
use vstd::prelude::*;

verus! {

/// `2 * r` split into a carry of whole multiples of `c` and a remainder below `c`.
fn double_mod(r: u128, c: u128) -> (res: (u128, u128))
    requires
        r < c,
    ensures
        res.0 < c,
        res.1 <= 1,
        2 * r == res.1 * c + res.0,
{
    if r >= c - r {
        (r - (c - r), 1)
    } else {
        (r + r, 0)
    }
}

/// `r + s` split into a carry of whole multiples of `c` and a remainder below `c`.
fn add_mod(r: u128, s: u128, c: u128) -> (res: (u128, u128))
    requires
        r < c,
        s < c,
    ensures
        res.0 < c,
        res.1 <= 1,
        r + s == res.1 * c + res.0,
{
    if r >= c - s {
        (r - (c - s), 1)
    } else {
        (r + s, 0)
    }
}

/// The floor of `a * b / c`, computed without ever forming the 256-bit
/// product; `None` exactly when the quotient does not fit in 128 bits.
pub fn mul_div(a: u128, b: u128, c: u128) -> (r: Option<u128>)
    requires
        c > 0,
    ensures
        match r {
            Some(q) => q as int == (a as int * b as int) / (c as int),
            None => (a as int * b as int) / (c as int) > u128::MAX,
        },
{
    let qa = a / c;
    let ra = a % c;
    let mut q: u128 = 0;
    let mut r: u128 = 0;
    let mut mask: u128 = 0x8000_0000_0000_0000_0000_0000_0000_0000;
    let ghost mut p: int = 0;
    proof {
        lemma_basic_div(b as int, 2 * mask as int);
        assert(mask & ((mask - 1) as u128) == 0) by (bit_vector)
            requires
                mask == 0x8000_0000_0000_0000_0000_0000_0000_0000u128,
        ;
    }
    loop
        invariant
            c > 0,
            qa as int == a as int / c as int,
            ra as int == a as int % c as int,
            mask > 0,
            mask & ((mask - 1) as u128) == 0,
            p == b as int / (2 * mask as int),
            a as int * p == q as int * c as int + r as int,
            r < c,
        decreases mask,
    {
        let bit: u128 = (b / mask) % 2;
        let ghost np: int = b as int / mask as int;
        proof {
            lemma_fundamental_div_mod(np, 2);
            lemma_div_denominator(b as int, mask as int, 2);
            assert(np == 2 * p + bit) by (nonlinear_arith)
                requires
                    np == 2 * (np / 2) + np % 2,
                    np / 2 == b as int / (mask as int * 2),
                    p == b as int / (2 * mask as int),
                    bit as int == np % 2,
            ;
            lemma_fundamental_div_mod(a as int, c as int);
        }
        let (r2, c1) = double_mod(r, c);
        let (nr, carry) = if bit == 1 {
            add_mod(r2, ra, c)
        } else {
            (r2, 0)
        };
        let ghost nq: int = 2 * q + c1 + bit * (qa + carry);
        proof {
            assert(a as int * np == nq * c + nr) by (nonlinear_arith)
                requires
                    np == 2 * p + bit,
                    a as int * p == q as int * c as int + r as int,
                    2 * r == c1 * c + r2,
                    a as int == c as int * qa + ra,
                    bit == 0 ==> nr == r2 && carry == 0,
                    bit == 1 ==> r2 + ra == carry * c + nr,
                    bit <= 1,
                    nq == 2 * q + c1 + bit * (qa + carry),
            ;
            lemma_fundamental_div_mod_converse(a as int * np, c as int, nq, nr as int);
            assert(np <= b) by {
                lemma_div_is_ordered(b as int, b as int, 1);
                lemma_div_is_ordered_by_mask(b, mask);
            }
            lemma_mul_inequality(np, b as int, a as int);
            assert(np * a <= b * a ==> a * np <= a * b) by (nonlinear_arith);
            lemma_div_is_ordered(a as int * np, a as int * b as int, c as int);
            assert(bit == 1 ==> nq == 2 * q + c1 + qa + carry) by (nonlinear_arith)
                requires
                    nq == 2 * q + c1 + bit * (qa + carry),
            ;
            assert(bit == 0 ==> nq == 2 * q + c1) by (nonlinear_arith)
                requires
                    nq == 2 * q + c1 + bit * (qa + carry),
            ;
            assert(nq <= (a as int * b as int) / c as int);
        }
        let step: u128 = if bit == 1 {
            match qa.checked_add(carry) {
                Some(v) => v,
                None => return None,
            }
        } else {
            0
        };
        let doubled = match q.checked_mul(2) {
            Some(v) => v,
            None => return None,
        };
        let partial = match doubled.checked_add(c1) {
            Some(v) => v,
            None => return None,
        };
        let next = match partial.checked_add(step) {
            Some(v) => v,
            None => return None,
        };
        q = next;
        r = nr;
        if mask == 1 {
            assert(np == b as int / 1);
            assert(b as int / 1 == b as int);
            assert(q as int == (a as int * np) / c as int);
            return Some(q);
        }
        proof {
            assert(mask & ((mask - 1) as u128) == 0 && mask > 1 ==> mask % 2 == 0 && (mask / 2) & ((
            mask / 2 - 1) as u128) == 0 && mask / 2 > 0) by (bit_vector);
        }
        mask = mask / 2;
        proof {
            p = np;
        }
    }
}

proof fn lemma_div_is_ordered_by_mask(b: u128, mask: u128)
    requires
        mask > 0,
    ensures
        b as int / mask as int <= b as int,
{
    vstd::arithmetic::div_mod::lemma_div_is_ordered_by_denominator(b as int, 1, mask as int);
}

} // verus!
