//! Recovering the secret from a quorum of shares.
//!
//! Every share contributes one point `(index, values[j])` of the
//! polynomial behind secret byte `j`.  With at least `threshold` points at
//! distinct non-zero x-coordinates, Lagrange interpolation evaluated at
//! x = 0 gives back the polynomial's constant term — the secret byte.
//! The shares are checked defensively first: too few of them, a
//! duplicated or reserved index, or disagreeing lengths fail with
//! `CorruptShareSet`; no partial or guessed secret is ever produced.

use vstd::prelude::*;

use crate::codec::{share_wf, ShareV};
use crate::dealer::{coeffs_wf, dealt_share, eval_poly, share_values, shares_match};
use crate::collector::{collect_responses, collected_spec, response_views, set_wf, ShareSet};
use crate::field::{
    gf_inv_nz, gf_inv_spec, gf_mul, gf_mul_spec, lemma_gf_inv_mul, lemma_gf_mul_assoc,
    lemma_gf_mul_comm, lemma_gf_mul_dist, lemma_gf_mul_dist_first, lemma_gf_mul_unit,
};
use crate::Error;

verus! {

/// The Lagrange basis factor for the point `xk`, evaluated at x = 0, over
/// the points `xs[j..]`: the product of `x_j / (x_j + x_k)` over every
/// other point (addition in GF(2^8) being exclusive or, `x_j + x_k` is
/// their difference too).
pub open spec fn basis_from(xs: Seq<u8>, xk: u8, j: nat) -> u8
    decreases xs.len() - j,
{
    if j >= xs.len() {
        1u8
    } else if xs[j as int] == xk {
        basis_from(xs, xk, j + 1)
    } else {
        gf_mul_spec(
            gf_mul_spec(xs[j as int], gf_inv_spec(xs[j as int] ^ xk)),
            basis_from(xs, xk, j + 1),
        )
    }
}

/// The full Lagrange basis factor for `xk` at x = 0.
pub open spec fn basis_at(xs: Seq<u8>, xk: u8) -> u8 {
    basis_from(xs, xk, 0)
}

/// The tail of the interpolation sum from point `k` on: each y-value
/// weighted by its basis factor, summed by exclusive or.
pub open spec fn lagrange_from(xs: Seq<u8>, ys: Seq<u8>, k: nat) -> u8
    decreases xs.len() - k,
{
    if k >= xs.len() {
        0u8
    } else {
        gf_mul_spec(ys[k as int], basis_at(xs, xs[k as int])) ^ lagrange_from(xs, ys, k + 1)
    }
}

/// The Lagrange interpolation of the points `(xs[k], ys[k])`, evaluated
/// at x = 0.
pub open spec fn lagrange_zero(xs: Seq<u8>, ys: Seq<u8>) -> u8 {
    lagrange_from(xs, ys, 0)
}

/// The x-coordinates of a row of shares.
pub open spec fn indices_of(s: Seq<ShareV>) -> Seq<u8> {
    s.map_values(|sh: ShareV| sh.index)
}

/// The y-values the shares hold for secret byte `j`.
pub open spec fn column(s: Seq<ShareV>, j: int) -> Seq<u8> {
    Seq::new(s.len(), |k: int| s[k].values[j])
}

/// The secret a row of shares interpolates to: byte by byte, the
/// interpolation of that byte's points at x = 0.
pub open spec fn recover_spec(s: Seq<ShareV>) -> Seq<u8> {
    Seq::new(s[0].values.len(), |j: int| lagrange_zero(indices_of(s), column(s, j)))
}

/// Computes the Lagrange basis factor for `xk` at x = 0 over the points
/// `xs`.
fn lagrange_basis(xs: &Vec<u8>, xk: u8) -> (r: u8)
    ensures
        r == basis_at(xs@, xk),
{
    let mut acc: u8 = 1;
    let mut j: usize = xs.len();
    while j > 0
        invariant
            j <= xs@.len(),
            acc == basis_from(xs@, xk, j as nat),
        decreases j,
    {
        j = j - 1;
        let xj = xs[j];
        if xj != xk {
            proof {
                assert(xj ^ xk != 0) by (bit_vector)
                    requires
                        xj != xk,
                ;
            }
            let f = gf_mul(xj, gf_inv_nz(xj ^ xk));
            acc = gf_mul(f, acc);
        }
    }
    acc
}

/// Checks that the shares are a usable quorum: every share well formed,
/// no index twice, all value rows of one length.
fn check_set(shares: &ShareSet) -> (b: bool)
    ensures
        b == set_wf(shares@),
{
    let n = shares.len();
    if n == 0 {
        return true;
    }
    let len0 = shares.get(0).values.len();
    let mut i: usize = 0;
    while i < n
        invariant
            n == shares@.len(),
            0 < n,
            len0 == shares@[0].values.len(),
            i <= n,
            forall|m: int| 0 <= m < i ==> share_wf(#[trigger] shares@[m]),
            forall|m: int| 0 <= m < i ==> (#[trigger] shares@[m]).values.len() == len0,
        decreases n - i,
    {
        let sh = shares.get(i);
        if sh.index == 0 || sh.values.len() != len0 || sh.values.len() == 0 {
            proof {
                assert(!set_wf(shares@));
            }
            return false;
        }
        i = i + 1;
    }
    let mut a: usize = 0;
    while a < n
        invariant
            n == shares@.len(),
            a <= n,
            forall|p: int, q: int| 0 <= p < q < n && p < a ==> shares@[p].index != shares@[q].index,
        decreases n - a,
    {
        let ia = shares.get(a).index;
        let mut b: usize = a + 1;
        while b < n
            invariant
                n == shares@.len(),
                a < n,
                ia == shares@[a as int].index,
                a < b <= n,
                forall|q: int| a < q < b ==> shares@[a as int].index != shares@[q].index,
            decreases n - b,
        {
            if shares.get(b).index == ia {
                proof {
                    assert(shares@[a as int].index == shares@[b as int].index);
                    assert(!set_wf(shares@));
                }
                return false;
            }
            b = b + 1;
        }
        a = a + 1;
    }
    true
}

/// Recovers the secret from the collected shares: for every byte
/// position, Lagrange interpolation over that byte's `(index, value)`
/// points, evaluated at x = 0.  The caller names the threshold it means
/// to enforce; handing in more than `threshold` shares interpolates over
/// all of them.  It is a `CorruptShareSet` error exactly when no share
/// was handed in, fewer than `threshold` were, or the shares are no
/// usable quorum — a duplicated or reserved index, an empty or
/// disagreeing value row.  No partial secret is ever returned.
pub fn reconstruct(shares: &ShareSet, threshold: u8) -> (r: Result<Vec<u8>, Error>)
    ensures
        (shares@.len() == 0 || shares@.len() < threshold || !set_wf(shares@)) <==> r is Err,
        r is Err ==> r == Err::<Vec<u8>, Error>(Error::CorruptShareSet),
        r matches Ok(secret) ==> secret@ == recover_spec(shares@) && secret@.len()
            == shares@[0].values.len(),
{
    let n = shares.len();
    if n == 0 || n < threshold as usize {
        return Err(Error::CorruptShareSet);
    }
    if !check_set(shares) {
        return Err(Error::CorruptShareSet);
    }
    let len0 = shares.get(0).values.len();
    let mut xs: Vec<u8> = Vec::new();
    let mut k: usize = 0;
    while k < n
        invariant
            n == shares@.len(),
            k <= n,
            xs@.len() == k,
            forall|m: int| 0 <= m < k ==> xs@[m] == indices_of(shares@)[m],
        decreases n - k,
    {
        xs.push(shares.get(k).index);
        k = k + 1;
    }
    proof {
        assert(xs@ =~= indices_of(shares@));
    }
    let mut bas: Vec<u8> = Vec::new();
    let mut k: usize = 0;
    while k < n
        invariant
            n == shares@.len(),
            xs@ == indices_of(shares@),
            k <= n,
            bas@.len() == k,
            forall|m: int| 0 <= m < k ==> bas@[m] == basis_at(xs@, xs@[m]),
        decreases n - k,
    {
        let w = lagrange_basis(&xs, xs[k]);
        bas.push(w);
        k = k + 1;
    }
    let mut secret: Vec<u8> = Vec::new();
    let mut j: usize = 0;
    while j < len0
        invariant
            n == shares@.len(),
            0 < n,
            set_wf(shares@),
            len0 == shares@[0].values.len(),
            xs@ == indices_of(shares@),
            bas@.len() == n,
            forall|m: int| 0 <= m < n ==> bas@[m] == basis_at(xs@, xs@[m]),
            j <= len0,
            secret@.len() == j,
            forall|m: int|
                0 <= m < j ==> secret@[m] == lagrange_zero(indices_of(shares@), column(shares@, m)),
        decreases len0 - j,
    {
        let mut acc: u8 = 0;
        let mut k: usize = n;
        while k > 0
            invariant
                n == shares@.len(),
                set_wf(shares@),
                len0 == shares@[0].values.len(),
                j < len0,
                xs@ == indices_of(shares@),
                bas@.len() == n,
                forall|m: int| 0 <= m < n ==> bas@[m] == basis_at(xs@, xs@[m]),
                k <= n,
                acc == lagrange_from(indices_of(shares@), column(shares@, j as int), k as nat),
            decreases k,
        {
            k = k - 1;
            let sh = shares.get(k);
            let y = sh.values[j];
            proof {
                assert(column(shares@, j as int)[k as int] == y);
            }
            acc = gf_mul(y, bas[k]) ^ acc;
        }
        secret.push(acc);
        j = j + 1;
    }
    proof {
        assert(secret@ =~= recover_spec(shares@));
    }
    Ok(secret)
}

/// One whole recovery pass over an already-fetched row of responses, one
/// per candidate position under the budget `threshold × redundancy`:
/// collect until a quorum of `threshold` shares is in hand, then
/// interpolate the secret.  Whatever quorum the collector gathers — its
/// shares well formed, index-unique and of one length — reconstruction is
/// owed to succeed on it, so a failure here is only ever a parameter
/// error or too few usable shares under the budget.
pub fn recover_from_responses(
    threshold: u8,
    redundancy: u8,
    responses: &Vec<Option<Vec<u8>>>,
) -> (r: Result<Vec<u8>, Error>)
    requires
        responses@.len() == threshold as nat * redundancy as nat,
    ensures
        (threshold < 2 || redundancy < 1) <==> r == Err::<Vec<u8>, Error>(
            Error::ThresholdInvalid,
        ),
        threshold >= 2 && redundancy >= 1 ==> {
            let collected = collected_spec(response_views(responses@), threshold);
            &&& collected.len() >= threshold ==> (r matches Ok(secret) && secret@ == recover_spec(
                collected,
            ))
            &&& collected.len() < threshold ==> r == Err::<Vec<u8>, Error>(
                Error::InsufficientShares { collected: collected.len() as u8, required: threshold },
            )
        },
{
    let set = match collect_responses(threshold, redundancy, responses) {
        Ok(set) => set,
        Err(e) => {
            return Err(e);
        },
    };
    reconstruct(&set, threshold)
}

/// Interpolating the two points a degree-one polynomial takes at two
/// distinct non-zero places gives back its constant term.
proof fn lemma_pair_interpolates(s: u8, c: u8, x1: u8, x2: u8)
    requires
        x1 != 0,
        x2 != 0,
        x1 != x2,
    ensures
        lagrange_zero(
            seq![x1, x2],
            seq![eval_poly(seq![s, c], x1), eval_poly(seq![s, c], x2)],
        ) == s,
{
    let xs = seq![x1, x2];
    let y1 = eval_poly(seq![s, c], x1);
    let y2 = eval_poly(seq![s, c], x2);
    let d = x1 ^ x2;
    assert(d != 0 && (x2 ^ x1) == d) by (bit_vector)
        requires
            x1 != x2 && d == (x1 ^ x2),
    ;
    let i = gf_inv_spec(d);
    // The evaluations: y = s + x * c.
    assert(seq![s, c].drop_first() =~= seq![c]);
    assert(seq![c].drop_first() =~= Seq::<u8>::empty());
    lemma_gf_mul_unit(x1);
    lemma_gf_mul_unit(x2);
    assert(c ^ 0u8 == c) by (bit_vector);
    assert(eval_poly(Seq::<u8>::empty(), x1) == 0);
    assert(eval_poly(Seq::<u8>::empty(), x2) == 0);
    assert(eval_poly(seq![c], x1) == c);
    assert(eval_poly(seq![c], x2) == c);
    assert(y1 == s ^ gf_mul_spec(x1, c));
    assert(y2 == s ^ gf_mul_spec(x2, c));
    // The two basis factors: the other point over the difference.
    let f1 = gf_mul_spec(x2, i);
    let f2 = gf_mul_spec(x1, i);
    assert(basis_from(xs, x1, 2) == 1);
    assert(basis_from(xs, x2, 2) == 1);
    lemma_gf_mul_unit(f1);
    lemma_gf_mul_unit(f2);
    assert(basis_from(xs, x1, 1) == gf_mul_spec(
        gf_mul_spec(xs[1], gf_inv_spec(xs[1] ^ x1)),
        basis_from(xs, x1, 2),
    ));
    assert(basis_from(xs, x1, 0) == basis_from(xs, x1, 1));
    assert(basis_at(xs, x1) == f1);
    assert(basis_from(xs, x2, 1) == basis_from(xs, x2, 2));
    assert(basis_from(xs, x2, 0) == gf_mul_spec(
        gf_mul_spec(xs[0], gf_inv_spec(xs[0] ^ x2)),
        basis_from(xs, x2, 1),
    ));
    assert(basis_at(xs, x2) == f2);
    // The interpolation sum, term by term.
    let ys = seq![y1, y2];
    assert(lagrange_from(xs, ys, 2) == 0);
    assert(lagrange_from(xs, ys, 1) == gf_mul_spec(ys[1], basis_at(xs, xs[1])) ^ lagrange_from(
        xs,
        ys,
        2,
    ));
    assert(lagrange_from(xs, ys, 0) == gf_mul_spec(ys[0], basis_at(xs, xs[0])) ^ lagrange_from(
        xs,
        ys,
        1,
    ));
    let a1 = gf_mul_spec(s, f1);
    let t1 = gf_mul_spec(gf_mul_spec(x1, c), f1);
    let a2 = gf_mul_spec(s, f2);
    let t2 = gf_mul_spec(gf_mul_spec(x2, c), f2);
    lemma_gf_mul_dist_first(s, gf_mul_spec(x1, c), f1);
    lemma_gf_mul_dist_first(s, gf_mul_spec(x2, c), f2);
    assert(gf_mul_spec(y1, f1) == a1 ^ t1);
    assert(gf_mul_spec(y2, f2) == a2 ^ t2);
    // The cross terms agree: both are c times x1 x2 over the difference.
    lemma_gf_mul_comm(x1, c);
    lemma_gf_mul_assoc(c, x1, f1);
    lemma_gf_mul_assoc(x1, x2, i);
    lemma_gf_mul_comm(x2, c);
    lemma_gf_mul_assoc(c, x2, f2);
    lemma_gf_mul_assoc(x2, x1, i);
    lemma_gf_mul_comm(x1, x2);
    assert(t1 == gf_mul_spec(c, gf_mul_spec(gf_mul_spec(x1, x2), i)));
    assert(t2 == gf_mul_spec(c, gf_mul_spec(gf_mul_spec(x2, x1), i)));
    // The plain terms sum to the secret: the basis factors sum to 1.
    lemma_gf_mul_dist(s, f1, f2);
    lemma_gf_mul_dist_first(x2, x1, i);
    lemma_gf_inv_mul(d);
    assert(f1 ^ f2 == gf_mul_spec(d, i));
    lemma_gf_mul_unit(s);
    assert(a1 ^ a2 == s);
    assert((a1 ^ t1) ^ ((a2 ^ t2) ^ 0) == s) by (bit_vector)
        requires
            t1 == t2 && (a1 ^ a2) == s,
    ;
}

/// Law (round trip at threshold 2): a secret split with one random
/// coefficient per byte is recovered exactly from the shares dealt at any
/// two distinct non-zero x-coordinates, whichever two they are and in
/// whichever order they were gathered.
pub proof fn lemma_pair_roundtrip(secret: Seq<u8>, coeffs: Seq<Seq<u8>>, x1: u8, x2: u8)
    requires
        secret.len() >= 1,
        coeffs_wf(coeffs, secret.len(), 2),
        x1 != 0,
        x2 != 0,
        x1 != x2,
    ensures
        recover_spec(
            seq![dealt_share(secret, coeffs, x1), dealt_share(secret, coeffs, x2)],
        ) == secret,
{
    let shares = seq![dealt_share(secret, coeffs, x1), dealt_share(secret, coeffs, x2)];
    assert(indices_of(shares) =~= seq![x1, x2]);
    assert forall|j: int| 0 <= j < secret.len() implies lagrange_zero(
        indices_of(shares),
        column(shares, j),
    ) == secret[j] by {
        assert(coeffs[j].len() == 1);
        assert(seq![secret[j]] + coeffs[j] =~= seq![secret[j], coeffs[j][0]]);
        assert(column(shares, j) =~= seq![
            eval_poly(seq![secret[j], coeffs[j][0]], x1),
            eval_poly(seq![secret[j], coeffs[j][0]], x2),
        ]);
        lemma_pair_interpolates(secret[j], coeffs[j][0], x1, x2);
    }
    assert(recover_spec(shares) =~= secret);
}

/// Law (any quorum of two agrees): any two distinct shares of one dealing
/// at threshold 2 recover the secret, so any two such quorums recover the
/// same thing.
pub proof fn lemma_pair_subset_independent(
    shares: Seq<ShareV>,
    secret: Seq<u8>,
    coeffs: Seq<Seq<u8>>,
    k1: int,
    k2: int,
)
    requires
        shares_match(shares, secret, coeffs),
        coeffs_wf(coeffs, secret.len(), 2),
        secret.len() >= 1,
        shares.len() <= 255,
        0 <= k1 < shares.len(),
        0 <= k2 < shares.len(),
        k1 != k2,
    ensures
        recover_spec(seq![shares[k1], shares[k2]]) == secret,
{
    assert(shares[k1] == dealt_share(secret, coeffs, (k1 + 1) as u8));
    assert(shares[k2] == dealt_share(secret, coeffs, (k2 + 1) as u8));
    lemma_pair_roundtrip(secret, coeffs, (k1 + 1) as u8, (k2 + 1) as u8);
}

} // verus!
