//! Arithmetic in the finite field GF(2^8).
//!
//! Elements are bytes; addition is exclusive or, and multiplication is
//! carry-less multiplication reduced modulo the AES polynomial
//! x^8 + x^4 + x^3 + x + 1 (0x11B).  The executable operations are
//! constant-structure: eight unconditional rounds for a product, a sweep of
//! the whole field for an inverse, with masks instead of branches on the
//! operands.

use vstd::prelude::*;

use crate::Error;

verus! {

/// Multiplication of a field element by x (that is, doubling): shift left
/// and, when the high bit fell off, reduce by the low byte of 0x11B.
pub open spec fn gf_xtime(a: u8) -> u8 {
    (a << 1) ^ (if a >= 0x80 {
        0x1Bu8
    } else {
        0u8
    })
}

/// One round per bit of `b`, `k` rounds in all: the product of `a` and the
/// low `k` bits of `b` in GF(2^8).
pub open spec fn gf_mul_rec(a: u8, b: u8, k: nat) -> u8
    decreases k,
{
    if k == 0 {
        0u8
    } else {
        (if b & 1 == 1 {
            a
        } else {
            0u8
        }) ^ gf_mul_rec(gf_xtime(a), b >> 1, (k - 1) as nat)
    }
}

/// The product of two elements of GF(2^8): eight rounds consume every bit
/// of `b`.
pub open spec fn gf_mul_spec(a: u8, b: u8) -> u8 {
    gf_mul_rec(a, b, 8)
}

/// The multiplicative inverse of a non-zero element: the unique partner
/// whose product with it is 1.  It exists by `lemma_gf_inv_exists` and is
/// unique by `lemma_gf_mul_cancel`; zero has none, and the value here is
/// unspecified for it.
pub open spec fn gf_inv_spec(a: u8) -> u8 {
    choose|b: u8| gf_mul_spec(a, b) == 1
}

/// Law: multiplication by 1 and by 0 behave as in any field.
pub proof fn lemma_gf_mul_unit(a: u8)
    ensures
        gf_mul_spec(a, 1) == a,
        gf_mul_spec(1, a) == a,
        gf_mul_spec(a, 0) == 0,
        gf_mul_spec(0, a) == 0,
{
    assert(gf_mul_spec(a, 1) == a && gf_mul_spec(1, a) == a && gf_mul_spec(a, 0) == 0
        && gf_mul_spec(0, a) == 0) by (bit_vector);
}

/// Law: multiplication in GF(2^8) is commutative.
pub proof fn lemma_gf_mul_comm(a: u8, b: u8)
    ensures
        gf_mul_spec(a, b) == gf_mul_spec(b, a),
{
    assert(gf_mul_spec(a, b) == gf_mul_spec(b, a)) by (bit_vector);
}

/// Law: multiplication in GF(2^8) distributes over addition.
pub proof fn lemma_gf_mul_dist(a: u8, b: u8, c: u8)
    ensures
        gf_mul_spec(a, b ^ c) == gf_mul_spec(a, b) ^ gf_mul_spec(a, c),
{
    assert(gf_mul_spec(a, b ^ c) == gf_mul_spec(a, b) ^ gf_mul_spec(a, c)) by (bit_vector);
}

/// Law: multiplication distributes over addition in its first operand too.
#[verifier::rlimit(100)]
pub proof fn lemma_gf_mul_dist_first(a: u8, b: u8, c: u8)
    ensures
        gf_mul_spec(a ^ b, c) == gf_mul_spec(a, c) ^ gf_mul_spec(b, c),
{
    assert(gf_mul_spec(a ^ b, c) == gf_mul_spec(a, c) ^ gf_mul_spec(b, c)) by (bit_vector);
}

/// Doubling commutes with multiplication: the product of 2a and c is twice
/// the product of a and c.
#[verifier::rlimit(100)]
pub proof fn lemma_gf_xtime_mul(a: u8, c: u8)
    ensures
        gf_mul_spec(gf_xtime(a), c) == gf_xtime(gf_mul_spec(a, c)),
{
    assert(gf_mul_spec(gf_xtime(a), c) == gf_xtime(gf_mul_spec(a, c))) by (bit_vector);
}

/// One unfolding of the product by the low bit of `b`: the product of `a`
/// and `b` is `a` when that bit is set, plus the product of 2a and b/2.
#[verifier::rlimit(100)]
pub proof fn lemma_gf_mul_step(a: u8, b: u8)
    ensures
        gf_mul_spec(a, b) == (if b & 1 == 1 {
            a
        } else {
            0u8
        }) ^ gf_mul_spec(gf_xtime(a), b >> 1),
{
    assert(gf_mul_spec(a, b) == (if b & 1 == 1 {
        a
    } else {
        0u8
    }) ^ gf_mul_spec(gf_xtime(a), b >> 1)) by (bit_vector);
}

/// Law: multiplication in GF(2^8) is associative, by induction over the
/// bits of the middle operand.
pub proof fn lemma_gf_mul_assoc(a: u8, b: u8, c: u8)
    ensures
        gf_mul_spec(gf_mul_spec(a, b), c) == gf_mul_spec(a, gf_mul_spec(b, c)),
    decreases b,
{
    if b == 0 {
        lemma_gf_mul_unit(a);
        lemma_gf_mul_unit(c);
        lemma_gf_mul_unit(gf_mul_spec(a, 0));
    } else {
        let xa = gf_xtime(a);
        let b2 = b >> 1;
        let t0: u8 = if b & 1 == 1 {
            a
        } else {
            0u8
        };
        let tc: u8 = if b & 1 == 1 {
            c
        } else {
            0u8
        };
        let m = gf_mul_spec(b2, c);
        assert(b >> 1 < b) by (bit_vector)
            requires
                b != 0,
        ;
        // The left product, one bit of b at a time.
        lemma_gf_mul_step(a, b);
        lemma_gf_mul_dist_first(t0, gf_mul_spec(xa, b2), c);
        lemma_gf_mul_assoc(xa, b2, c);
        lemma_gf_xtime_mul(a, m);
        assert(gf_mul_spec(gf_mul_spec(a, b), c) == gf_mul_spec(t0, c) ^ gf_xtime(
            gf_mul_spec(a, m),
        ));
        // The right product, decomposed the same way.
        lemma_gf_mul_comm(b, c);
        lemma_gf_mul_step(c, b);
        lemma_gf_xtime_mul(c, b2);
        lemma_gf_mul_comm(c, b2);
        assert(gf_mul_spec(b, c) == tc ^ gf_xtime(m));
        lemma_gf_mul_dist(a, tc, gf_xtime(m));
        lemma_gf_mul_comm(a, gf_xtime(m));
        lemma_gf_xtime_mul(m, a);
        lemma_gf_mul_comm(m, a);
        assert(gf_mul_spec(a, gf_mul_spec(b, c)) == gf_mul_spec(a, tc) ^ gf_xtime(
            gf_mul_spec(a, m),
        ));
        // The stray terms agree whichever value the low bit of b has.
        if b & 1 == 1 {
            lemma_gf_mul_comm(a, c);
        } else {
            lemma_gf_mul_unit(c);
            lemma_gf_mul_unit(a);
        }
    }
}

/// Law: GF(2^8) has no zero divisors: a product is zero only when an
/// operand is.
pub proof fn lemma_gf_no_zero_divisors(a: u8, b: u8)
    ensures
        gf_mul_spec(a, b) == 0 ==> a == 0 || b == 0,
{
    assert(gf_mul_spec(a, b) == 0 ==> a == 0 || b == 0) by (bit_vector);
}

/// Law: multiplication by a non-zero element cancels: equal products mean
/// equal factors.
pub proof fn lemma_gf_mul_cancel(a: u8, x: u8, y: u8)
    requires
        a != 0,
        gf_mul_spec(a, x) == gf_mul_spec(a, y),
    ensures
        x == y,
{
    lemma_gf_mul_dist(a, x, y);
    let p = gf_mul_spec(a, x);
    let q = gf_mul_spec(a, y);
    assert(p == q ==> p ^ q == 0) by (bit_vector);
    lemma_gf_no_zero_divisors(a, x ^ y);
    assert(x ^ y == 0 ==> x == y) by (bit_vector);
}

/// Law: every non-zero element of GF(2^8) has a multiplicative inverse.
/// Multiplication by the element is injective by cancellation, so on the
/// 256 field elements it is a bijection, and something is sent to 1.
pub proof fn lemma_gf_inv_exists(a: u8)
    requires
        a != 0,
    ensures
        exists|b: u8| gf_mul_spec(a, b) == 1,
{
    let full = Set::<u8>::full();
    <u8 as vstd::set_lib::FiniteFull>::full_properties();
    vstd::set_lib::range_set_properties::<u8>(0, 255);
    assert(full =~= Set::<u8>::range(0, 255).insert(255));
    assert(!Set::<u8>::range(0, 255).contains(255));
    assert(full.len() == 256);
    let m = Map::<u8, u8>::new(|x: u8| true, |x: u8| gf_mul_spec(a, x));
    assert(m.dom() =~= full);
    assert(m.is_injective()) by {
        assert forall|x: u8, y: u8|
            m.dom().contains(x) && m.dom().contains(y) && #[trigger] m[x] == #[trigger] m[y]
            implies x == y by {
            lemma_gf_mul_cancel(a, x, y);
        }
    }
    m.lemma_injective_values_len();
    assert(m.values().len() == 256);
    if !m.values().contains(1u8) {
        let rest = full.remove(1u8);
        assert(m.values().subset_of(rest));
        vstd::set_lib::lemma_len_subset(m.values(), rest);
        assert(rest.len() == 255);
        assert(false);
    }
    let b = choose|b: u8| m.dom().contains(b) && m[b] == 1u8;
    assert(gf_mul_spec(a, b) == 1);
}

/// Law: the inverse really inverts: for every non-zero element, the
/// product with its inverse is 1.
pub proof fn lemma_gf_inv_mul(a: u8)
    requires
        a != 0,
    ensures
        gf_mul_spec(a, gf_inv_spec(a)) == 1,
{
    lemma_gf_inv_exists(a);
}

/// Adds two elements of GF(2^8); addition in a binary field is exclusive or.
pub fn gf_add(a: u8, b: u8) -> (r: u8)
    ensures
        r == (a ^ b),
{
    a ^ b
}

/// Multiplies two elements of GF(2^8), in eight unconditional rounds with
/// mask arithmetic in place of branches on the operands.
pub fn gf_mul(a: u8, b: u8) -> (r: u8)
    ensures
        r == gf_mul_spec(a, b),
{
    let mut acc: u8 = 0;
    let mut x: u8 = a;
    let mut y: u8 = b;
    let mut k: usize = 0;
    proof {
        let m = gf_mul_rec(a, b, 8);
        assert(0u8 ^ m == m) by (bit_vector);
    }
    while k < 8
        invariant
            k <= 8,
            gf_mul_spec(a, b) == acc ^ gf_mul_rec(x, y, (8 - k) as nat),
        decreases 8 - k,
    {
        proof {
            assert(x * (y & 1) < 256) by (bit_vector);
            assert((x >> 7) * 0x1B < 256) by (bit_vector);
        }
        let term: u8 = x * (y & 1);
        let reduce: u8 = (x >> 7) * 0x1B;
        let x2: u8 = (x << 1) ^ reduce;
        let y2: u8 = y >> 1;
        let acc2: u8 = acc ^ term;
        proof {
            assert(x * (y & 1) == (if y & 1 == 1 {
                x as int
            } else {
                0int
            })) by (bit_vector);
            assert((x >> 7) * 0x1B == (if x >= 0x80 {
                0x1Bu8 as int
            } else {
                0int
            })) by (bit_vector);
            assert(x2 == gf_xtime(x));
            let t0 = (if y & 1 == 1 {
                x
            } else {
                0u8
            });
            let rest = gf_mul_rec(gf_xtime(x), y >> 1, (8 - k - 1) as nat);
            assert(gf_mul_rec(x, y, (8 - k) as nat) == t0 ^ rest);
            assert(acc ^ (t0 ^ rest) == (acc ^ t0) ^ rest) by (bit_vector);
        }
        acc = acc2;
        x = x2;
        y = y2;
        k = k + 1;
    }
    proof {
        assert(acc ^ 0u8 == acc) by (bit_vector);
    }
    acc
}

/// The inverse of a non-zero element, found by a sweep over all 256 field
/// elements: every candidate is multiplied and folded in under a mask, the
/// same work whatever the operand, so no branch depends on it.
pub(crate) fn gf_inv_nz(a: u8) -> (r: u8)
    requires
        a != 0,
    ensures
        r == gf_inv_spec(a),
        gf_mul_spec(a, r) == 1,
{
    proof {
        lemma_gf_inv_mul(a);
    }
    let ghost w = gf_inv_spec(a);
    let mut r: u8 = 0;
    let mut b: u16 = 0;
    while b < 256
        invariant
            a != 0,
            b <= 256,
            w == gf_inv_spec(a),
            gf_mul_spec(a, w) == 1,
            r == (if b > w as u16 {
                w
            } else {
                0u8
            }),
        decreases 256 - b,
    {
        let bb = b as u8;
        let p = gf_mul(a, bb);
        let d: u16 = (p ^ 1) as u16;
        let sel: u16 = (0x100 - d) >> 8;
        proof {
            assert(sel <= 1 && (sel == 1 <==> p == 1)) by (bit_vector)
                requires
                    d == (p ^ 1) as u16 && sel == ((0x100 - d) as u16) >> 8,
            ;
            assert((sel as u8) * 0xFF < 256) by (bit_vector)
                requires
                    sel <= 1,
            ;
        }
        let mask: u8 = (sel as u8) * 0xFF;
        let r2: u8 = r | (bb & mask);
        proof {
            assert(bb as u16 == b) by (bit_vector)
                requires
                    b < 256 && bb == b as u8,
            ;
            if p == 1 {
                lemma_gf_mul_cancel(a, bb, w);
                assert(mask == 0xFF) by (bit_vector)
                    requires
                        sel == 1 && mask == (sel as u8) * 0xFF,
                ;
                assert(r2 == bb) by (bit_vector)
                    requires
                        r == 0 && mask == 0xFF && r2 == r | (bb & mask),
                ;
            } else {
                assert(bb != w);
                assert(mask == 0) by (bit_vector)
                    requires
                        sel == 0 && mask == (sel as u8) * 0xFF,
                ;
                assert(r2 == r) by (bit_vector)
                    requires
                        mask == 0 && r2 == r | (bb & mask),
                ;
            }
        }
        r = r2;
        b = b + 1;
    }
    r
}

/// The multiplicative inverse in GF(2^8).  Zero has none: the scheme
/// reserves x = 0, so a zero operand is a caller's invariant violation and
/// is surfaced as `DivisionByZero` rather than swallowed.
pub fn gf_inv(a: u8) -> (r: Result<u8, Error>)
    ensures
        a == 0 <==> r is Err,
        r is Err ==> r == Err::<u8, Error>(Error::DivisionByZero),
        a != 0 ==> r == Ok::<u8, Error>(gf_inv_spec(a)),
{
    if a == 0 {
        Err(Error::DivisionByZero)
    } else {
        Ok(gf_inv_nz(a))
    }
}

} // verus!
