//! Shares and their fixed-width wire format.
//!
//! A share holds one finite-field evaluation per secret byte, all taken at
//! the same non-zero x-coordinate, its `index`.  On the wire a share is
//! `index` followed by the raw values, so the encoded length is one more
//! than the secret's length and the format is self-describing.  A buffer
//! that is shorter than two bytes, or that carries the reserved index 0,
//! is no share at all.

use vstd::prelude::*;

use crate::Error;

verus! {

/// The mathematical content of a share: its x-coordinate and one field
/// element per secret byte.
pub ghost struct ShareV {
    /// The x-coordinate the share was evaluated at.
    pub index: u8,
    /// The y-values, one per secret byte.
    pub values: Seq<u8>,
}

/// One share of a split secret.
#[derive(Clone, Debug)]
pub struct Share {
    /// The x-coordinate, in 1..=255; 0 is reserved since a polynomial at 0
    /// is the secret byte itself.
    pub index: u8,
    /// One GF(2^8) evaluation per secret byte.
    pub values: Vec<u8>,
}

impl View for Share {
    type V = ShareV;

    open spec fn view(&self) -> ShareV {
        ShareV { index: self.index, values: self.values@ }
    }
}

/// A well-formed share: a non-reserved index and at least one value, as
/// the dealer only ever produces them.
pub open spec fn share_wf(s: ShareV) -> bool {
    &&& s.index >= 1
    &&& s.values.len() >= 1
}

/// The wire form of a share: the index byte, then the values.
pub open spec fn encode_spec(s: ShareV) -> Seq<u8> {
    seq![s.index] + s.values
}

/// What a byte buffer decodes to: a share for a buffer of two or more
/// bytes whose first byte is not the reserved index 0, nothing otherwise.
pub open spec fn decode_spec(b: Seq<u8>) -> Option<ShareV> {
    if b.len() >= 2 && b[0] != 0 {
        Some(ShareV { index: b[0], values: b.drop_first() })
    } else {
        None
    }
}

impl Share {
    /// Encodes the share in its wire format: the index byte followed by
    /// the values, `values.len() + 1` bytes in all.
    pub fn encode(&self) -> (r: Vec<u8>)
        ensures
            r@ == encode_spec(self@),
            r@.len() == self.values@.len() + 1,
    {
        let mut out: Vec<u8> = Vec::new();
        out.push(self.index);
        let mut i: usize = 0;
        while i < self.values.len()
            invariant
                i <= self.values@.len(),
                out@ == seq![self.index] + self.values@.subrange(0, i as int),
            decreases self.values@.len() - i,
        {
            out.push(self.values[i]);
            proof {
                assert(self.values@.subrange(0, i + 1) == self.values@.subrange(0, i as int).push(
                    self.values@[i as int],
                ));
            }
            i = i + 1;
        }
        proof {
            assert(self.values@.subrange(0, self.values@.len() as int) == self.values@);
        }
        out
    }

    /// Decodes a fetched byte buffer.  It is a `CorruptShare` error exactly
    /// when the buffer is shorter than two bytes (an empty secret is not
    /// supported) or names the reserved index 0.
    pub fn decode(bytes: &Vec<u8>) -> (r: Result<Share, Error>)
        ensures
            match r {
                Ok(s) => decode_spec(bytes@) == Some(s@) && share_wf(s@),
                Err(e) => decode_spec(bytes@) is None && e == Error::CorruptShare,
            },
    {
        if bytes.len() < 2 {
            return Err(Error::CorruptShare);
        }
        let index = bytes[0];
        if index == 0 {
            return Err(Error::CorruptShare);
        }
        let mut values: Vec<u8> = Vec::new();
        let mut i: usize = 1;
        while i < bytes.len()
            invariant
                1 <= i <= bytes@.len(),
                values@ == bytes@.subrange(1, i as int),
            decreases bytes@.len() - i,
        {
            values.push(bytes[i]);
            proof {
                assert(bytes@.subrange(1, i + 1) == bytes@.subrange(1, i as int).push(
                    bytes@[i as int],
                ));
            }
            i = i + 1;
        }
        proof {
            assert(bytes@.subrange(1, bytes@.len() as int) == bytes@.drop_first());
        }
        Ok(Share { index, values })
    }
}

/// Law: the wire format loses nothing.  Encoding any well-formed share and
/// decoding the bytes gives the very share back.
pub proof fn lemma_codec_roundtrip(s: ShareV)
    requires
        share_wf(s),
    ensures
        decode_spec(encode_spec(s)) == Some(s),
{
    let b = encode_spec(s);
    assert(b.drop_first() == s.values);
}

} // verus!
