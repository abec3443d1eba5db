//! The dealer: splitting a secret into redundant shares.
//!
//! For every byte of the secret a fresh polynomial of degree `t - 1` over
//! GF(2^8) is drawn, with the secret byte as its constant term and random
//! higher coefficients, and evaluated at the non-zero points 1..=n.  Share
//! `k` gathers the evaluations at `x = k + 1`; any `t` shares determine
//! the polynomials and hence the secret, while x = 0 — where every
//! polynomial is the secret byte itself — is never used.

use vstd::prelude::*;

use rand::RngCore;

use crate::address::{key_for, key_for_spec};
use crate::codec::{encode_spec, share_wf, Share, ShareV};
use crate::collector::set_wf;
use crate::field::{gf_mul, gf_mul_spec};
use crate::Error;

verus! {

/// The value of the polynomial with coefficient sequence `p` (constant
/// term first) at the point `x`, by Horner's rule.
pub open spec fn eval_poly(p: Seq<u8>, x: u8) -> u8
    decreases p.len(),
{
    if p.len() == 0 {
        0u8
    } else {
        p[0] ^ gf_mul_spec(x, eval_poly(p.drop_first(), x))
    }
}

/// The y-values of one share: for each secret byte, its polynomial —
/// the byte, then that byte's random coefficients — evaluated at `x`.
pub open spec fn share_values(secret: Seq<u8>, coeffs: Seq<Seq<u8>>, x: u8) -> Seq<u8> {
    Seq::new(secret.len(), |j: int| eval_poly(seq![secret[j]] + coeffs[j], x))
}

/// The share the dealer deals at x-coordinate `x`: the index and, for
/// every secret byte, that byte's polynomial evaluated there.
pub open spec fn dealt_share(secret: Seq<u8>, coeffs: Seq<Seq<u8>>, x: u8) -> ShareV {
    ShareV { index: x, values: share_values(secret, coeffs, x) }
}

/// Well-formed random coefficients for a split: one row of `t - 1` field
/// elements for every secret byte.
pub open spec fn coeffs_wf(coeffs: Seq<Seq<u8>>, len: nat, threshold: u8) -> bool {
    &&& coeffs.len() == len
    &&& forall|j: int| 0 <= j < len ==> (#[trigger] coeffs[j]).len() == threshold - 1
}

/// Whether `shares` is exactly the dealer's output for `secret` and
/// `coeffs`: share `k` carries index `k + 1` and the evaluations there.
pub open spec fn shares_match(shares: Seq<ShareV>, secret: Seq<u8>, coeffs: Seq<Seq<u8>>) -> bool {
    forall|k: int|
        0 <= k < shares.len() ==> #[trigger] shares[k] == (ShareV {
            index: (k + 1) as u8,
            values: share_values(secret, coeffs, (k + 1) as u8),
        })
}

/// The views of a vector of shares.
pub open spec fn views_of(shares: Seq<Share>) -> Seq<ShareV> {
    shares.map_values(|s: Share| s@)
}

/// Relies on rand::rngs::ThreadRng (through rand::thread_rng) and
/// rand::RngCore::fill_bytes: a cryptographically secure generator fills
/// the buffer.  The bytes are random, so nothing is promised of them but
/// their number.
#[verifier::external_body]
fn random_bytes(len: usize) -> (r: Vec<u8>)
    ensures
        r@.len() == len,
{
    let mut buf = vec![0u8; len];
    rand::thread_rng().fill_bytes(&mut buf);
    buf
}

/// Evaluates the polynomial with coefficients `p` (constant term first)
/// at `x`, by Horner's rule from the highest coefficient down.
fn poly_eval(p: &Vec<u8>, x: u8) -> (y: u8)
    ensures
        y == eval_poly(p@, x),
{
    let mut acc: u8 = 0;
    let mut i: usize = p.len();
    proof {
        assert(p@.skip(p@.len() as int) =~= Seq::<u8>::empty());
    }
    while i > 0
        invariant
            i <= p@.len(),
            acc == eval_poly(p@.skip(i as int), x),
        decreases i,
    {
        i = i - 1;
        acc = p[i] ^ gf_mul(x, acc);
        proof {
            assert(p@.skip(i as int).drop_first() =~= p@.skip(i + 1));
        }
    }
    proof {
        assert(p@.skip(0) =~= p@);
    }
    acc
}

/// One share byte: the polynomial whose constant term is `c0` and whose
/// higher coefficients are `rest`, evaluated at `x`.
fn share_byte(c0: u8, rest: &Vec<u8>, x: u8) -> (y: u8)
    ensures
        y == eval_poly(seq![c0] + rest@, x),
{
    let e = poly_eval(rest, x);
    let y = c0 ^ gf_mul(x, e);
    proof {
        assert((seq![c0] + rest@).drop_first() =~= rest@);
    }
    y
}

/// Splits `secret` into `total` shares of threshold `threshold` using the
/// given coefficient rows — the deterministic heart of the dealer, which
/// `split` feeds with fresh randomness.  Share `k` gets index `k + 1` and,
/// for every secret byte, the value at `x = k + 1` of that byte's
/// polynomial.
pub fn split_with_coeffs(secret: &Vec<u8>, threshold: u8, total: u8, coeffs: &Vec<Vec<u8>>) -> (r:
    Vec<Share>)
    requires
        2 <= threshold <= total,
        secret@.len() >= 1,
        coeffs@.len() == secret@.len(),
        forall|j: int| 0 <= j < coeffs@.len() ==> (#[trigger] coeffs@[j])@.len() == threshold - 1,
    ensures
        r@.len() == total as nat,
        shares_match(views_of(r@), secret@, rows_of(coeffs@)),
        coeffs_wf(rows_of(coeffs@), secret@.len(), threshold),
{
    let ghost crows = rows_of(coeffs@);
    let mut shares: Vec<Share> = Vec::new();
    let mut k: usize = 0;
    while k < total as usize
        invariant
            k <= total as nat,
            2 <= threshold <= total,
            coeffs@.len() == secret@.len(),
            forall|j: int|
                0 <= j < coeffs@.len() ==> (#[trigger] coeffs@[j])@.len() == threshold - 1,
            crows == rows_of(coeffs@),
            shares@.len() == k,
            forall|m: int|
                0 <= m < k ==> (#[trigger] shares@[m])@ == (ShareV {
                    index: (m + 1) as u8,
                    values: share_values(secret@, crows, (m + 1) as u8),
                }),
        decreases total - k,
    {
        let x: u8 = (k as u8) + 1;
        let mut values: Vec<u8> = Vec::new();
        let mut j: usize = 0;
        while j < secret.len()
            invariant
                j <= secret@.len(),
                coeffs@.len() == secret@.len(),
                crows == rows_of(coeffs@),
                values@.len() == j,
                forall|m: int|
                    0 <= m < j ==> values@[m] == eval_poly(
                        seq![secret@[m]] + crows[m],
                        x,
                    ),
            decreases secret@.len() - j,
        {
            let y = share_byte(secret[j], &coeffs[j], x);
            values.push(y);
            j = j + 1;
        }
        proof {
            assert(values@ =~= share_values(secret@, crows, x));
        }
        shares.push(Share { index: x, values });
        k = k + 1;
    }
    shares
}


/// Law: the dealer never deals the same index twice.  Whatever it
/// produces for a non-empty secret — and so any selection of it handed
/// on to reconstruction in dealing order — is a usable quorum pool:
/// every share well formed, the indices 1 upwards without repetition,
/// and all value rows as long as the secret.
pub proof fn lemma_dealer_shares_wf(shares: Seq<ShareV>, secret: Seq<u8>, coeffs: Seq<Seq<u8>>)
    requires
        shares_match(shares, secret, coeffs),
        shares.len() <= 255,
        secret.len() >= 1,
    ensures
        set_wf(shares),
        forall|k: int| 0 <= k < shares.len() ==> (#[trigger] shares[k]).index == k + 1,
        forall|k: int| 0 <= k < shares.len() ==> (#[trigger] shares[k]).values.len()
            == secret.len(),
{
    assert forall|k: int| 0 <= k < shares.len() implies share_wf(#[trigger] shares[k])
        && shares[k].index == k + 1 && shares[k].values.len() == secret.len() by {
        assert(shares[k] == (ShareV {
            index: (k + 1) as u8,
            values: share_values(secret, coeffs, (k + 1) as u8),
        }));
    }
}

/// The rows of a vector of coefficient vectors, as sequences.
pub open spec fn rows_of(c: Seq<Vec<u8>>) -> Seq<Seq<u8>> {
    c.map_values(|v: Vec<u8>| v@)
}

/// That `shares` is a dealer's output for `secret` at threshold
/// `threshold`: some well-formed coefficient rows produce exactly them.
pub open spec fn split_ok(shares: Seq<ShareV>, secret: Seq<u8>, threshold: u8) -> bool {
    exists|coeffs: Seq<Seq<u8>>|
        #![trigger shares_match(shares, secret, coeffs)]
        coeffs_wf(coeffs, secret.len(), threshold) && shares_match(shares, secret, coeffs)
}

/// Splits a secret of length at least 1 into `total` shares over GF(2^8),
/// of which any `threshold` reconstruct it: for every secret byte a fresh
/// polynomial of degree `threshold - 1` is drawn from the secure random
/// source, with the byte as constant term, and evaluated at x = 1..=total.
/// It is a `ThresholdInvalid` error exactly when the threshold is under 2,
/// exceeds the share count, or the secret is empty.
pub fn split(secret: &Vec<u8>, threshold: u8, total: u8) -> (r: Result<Vec<Share>, Error>)
    ensures
        (threshold < 2 || threshold > total || secret@.len() == 0) <==> r is Err,
        r is Err ==> r == Err::<Vec<Share>, Error>(Error::ThresholdInvalid),
        r matches Ok(shares) ==> shares@.len() == total as nat && split_ok(
            views_of(shares@),
            secret@,
            threshold,
        ),
{
    if threshold < 2 || threshold > total || secret.len() == 0 {
        return Err(Error::ThresholdInvalid);
    }
    let mut coeffs: Vec<Vec<u8>> = Vec::new();
    let mut j: usize = 0;
    while j < secret.len()
        invariant
            threshold >= 2,
            j <= secret@.len(),
            coeffs@.len() == j,
            forall|m: int| 0 <= m < j ==> (#[trigger] coeffs@[m])@.len() == threshold - 1,
        decreases secret@.len() - j,
    {
        let row = random_bytes((threshold - 1) as usize);
        coeffs.push(row);
        j = j + 1;
    }
    let shares = split_with_coeffs(secret, threshold, total, &coeffs);
    proof {
        let crows = rows_of(coeffs@);
        assert(coeffs_wf(crows, secret@.len(), threshold));
        assert(shares_match(views_of(shares@), secret@, crows));
        assert(split_ok(views_of(shares@), secret@, threshold));
    }
    Ok(shares)
}

/// That record `k` of the distribution carries the wire form of the share
/// of index `k + 1` as the given coefficient rows determine it.
pub open spec fn records_payloads_match(
    records: Seq<(String, Vec<u8>)>,
    secret: Seq<u8>,
    coeffs: Seq<Seq<u8>>,
) -> bool {
    forall|k: int|
        0 <= k < records.len() ==> (#[trigger] records[k]).1@ == encode_spec(
            (ShareV { index: (k + 1) as u8, values: share_values(secret, coeffs, (k + 1) as u8) }),
        )
}

/// That `records` carries a dealer's output for `secret` in encoded form:
/// some well-formed coefficient rows yield exactly these payloads.
pub open spec fn records_ok(records: Seq<(String, Vec<u8>)>, secret: Seq<u8>, threshold: u8) -> bool {
    exists|coeffs: Seq<Seq<u8>>|
        #![trigger records_payloads_match(records, secret, coeffs)]
        coeffs_wf(coeffs, secret.len(), threshold) && records_payloads_match(
            records,
            secret,
            coeffs,
        )
}

/// The records the distribution side hands to the key/value collaborator:
/// for each candidate position `k` under `threshold × redundancy`, the
/// storage key of position `k` paired with the encoded share of index
/// `k + 1`.  Writing each pair with the collaborator's `put` is all that
/// is left to the caller.  It is a `ThresholdInvalid` error exactly when
/// the threshold is under 2, the redundancy under 1, more than 255 shares
/// would be dealt, or the secret is empty.
pub fn split_for_storage(secret: &Vec<u8>, threshold: u8, redundancy: u8, name: &str) -> (r: Result<
    Vec<(String, Vec<u8>)>,
    Error,
>)
    ensures
        (threshold < 2 || redundancy < 1 || threshold as nat * redundancy as nat > 255
            || secret@.len() == 0) <==> r is Err,
        r is Err ==> r == Err::<Vec<(String, Vec<u8>)>, Error>(Error::ThresholdInvalid),
        r matches Ok(records) ==> records@.len() == threshold as nat * redundancy as nat && (
        forall|k: int|
            0 <= k < records@.len() ==> (#[trigger] records@[k]).0@ == key_for_spec(
                k as u8,
                name@,
            )) && records_ok(records@, secret@, threshold),
{
    proof {
        assert(threshold as int * redundancy as int <= 65025) by (nonlinear_arith)
            requires
                threshold as int <= 255 && redundancy as int <= 255,
        ;
    }
    let total16: u16 = (threshold as u16) * (redundancy as u16);
    if threshold < 2 || redundancy < 1 || total16 > 255 || secret.len() == 0 {
        return Err(Error::ThresholdInvalid);
    }
    let total: u8 = total16 as u8;
    proof {
        assert(threshold as nat * redundancy as nat >= threshold as nat * 1) by (nonlinear_arith)
            requires
                redundancy >= 1,
        ;
    }
    let shares = match split(secret, threshold, total) {
        Ok(shares) => shares,
        Err(e) => {
            return Err(e);
        },
    };
    let ghost coeffs = choose|coeffs: Seq<Seq<u8>>|
        #![trigger shares_match(views_of(shares@), secret@, coeffs)]
        coeffs_wf(coeffs, secret@.len(), threshold) && shares_match(
            views_of(shares@),
            secret@,
            coeffs,
        );
    let mut records: Vec<(String, Vec<u8>)> = Vec::new();
    let mut k: usize = 0;
    while k < shares.len()
        invariant
            k <= shares@.len(),
            shares@.len() <= 255,
            shares_match(views_of(shares@), secret@, coeffs),
            records@.len() == k,
            forall|m: int|
                0 <= m < k ==> (#[trigger] records@[m]).0@ == key_for_spec(m as u8, name@),
            forall|m: int|
                0 <= m < k ==> (#[trigger] records@[m]).1@ == encode_spec(
                    (ShareV {
                        index: (m + 1) as u8,
                        values: share_values(secret@, coeffs, (m + 1) as u8),
                    }),
                ),
        decreases shares@.len() - k,
    {
        let key = key_for(k as u8, name);
        let bytes = shares[k].encode();
        proof {
            assert(views_of(shares@)[k as int] == shares@[k as int]@);
        }
        records.push((key, bytes));
        k = k + 1;
    }
    proof {
        assert(records_payloads_match(records@, secret@, coeffs));
        assert(records_ok(records@, secret@, threshold));
    }
    Ok(records)
}

} // verus!
