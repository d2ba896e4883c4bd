//! PKCS7 padding codec: turns arbitrary-length content into a block-aligned
//! buffer and recovers the original content from a well-padded buffer.

use vstd::prelude::*;
use vstd::slice::{slice_subrange, slice_to_vec};

use crate::errors::CryptoError;

verus! {

/// How many padding bytes `pkcs7_pad` appends to content of length `n`:
/// always between 1 and 16, a full extra block when `n` is already aligned.
pub open spec fn pad_len_of(n: nat) -> nat {
    (16 - n % 16) as nat
}

/// The PKCS7 encoding of `data`: `pad_len_of` bytes are appended, each
/// holding the number of appended bytes.
pub open spec fn pkcs7_pad(data: Seq<u8>) -> Seq<u8> {
    data + Seq::new(pad_len_of(data.len()), |i: int| pad_len_of(data.len()) as u8)
}

/// Stripping a PKCS7 tail. The empty buffer passes through unchanged; a
/// trailing byte outside `[1, 16]`, or one claiming more bytes than the
/// buffer holds, yields `None` (the padding is ambiguous).
pub open spec fn pkcs7_unpad(padded: Seq<u8>) -> Option<Seq<u8>> {
    if padded.len() == 0 {
        Some(padded)
    } else {
        let p = padded.last() as int;
        if 1 <= p <= 16 && p <= padded.len() {
            Some(padded.take(padded.len() - p))
        } else {
            None
        }
    }
}

/// Appends the PKCS7 padding to `data`.
pub fn pkcs7_encode(data: &[u8]) -> (out: Vec<u8>)
    ensures
        out@ == pkcs7_pad(data@),
{
    let mut out = slice_to_vec(data);
    let pad: usize = 16 - data.len() % 16;
    let mut i: usize = 0;
    while i < pad
        invariant
            1 <= pad <= 16,
            pad == pad_len_of(data@.len()),
            i <= pad,
            out@ == data@ + Seq::new(i as nat, |j: int| pad as u8),
        decreases pad - i,
    {
        out.push(pad as u8);
        proof {
            assert(out@ =~= data@ + Seq::new((i + 1) as nat, |j: int| pad as u8));
        }
        i = i + 1;
    }
    proof {
        assert(out@ =~= pkcs7_pad(data@));
    }
    out
}

/// Strips the PKCS7 padding from `padded`, following `pkcs7_unpad`: the
/// recovered content on a well-formed tail, `PaddingAmbiguity` otherwise.
pub fn pkcs7_decode(padded: &[u8]) -> (r: Result<Vec<u8>, CryptoError>)
    ensures
        pkcs7_unpad(padded@) is Some ==> r is Ok && r->Ok_0@ == pkcs7_unpad(padded@)->Some_0,
        pkcs7_unpad(padded@) is None ==> r == Err::<Vec<u8>, CryptoError>(
            CryptoError::PaddingAmbiguity,
        ),
{
    let n = padded.len();
    if n == 0 {
        return Ok(Vec::new());
    }
    let p = padded[n - 1];
    if 1 <= p && p <= 16 && (p as usize) <= n {
        let kept = slice_subrange(padded, 0, n - p as usize);
        Ok(slice_to_vec(kept))
    } else {
        Err(CryptoError::PaddingAmbiguity)
    }
}

/// Padding growth bound: encoding always grows the content, by at most one
/// full block.
pub proof fn lemma_pad_growth(data: Seq<u8>)
    ensures
        pkcs7_pad(data).len() - data.len() == pad_len_of(data.len()),
        1 <= pkcs7_pad(data).len() - data.len() <= 16,
{
}

/// Block alignment: the encoded buffer is a whole number of 16-byte blocks,
/// and never empty.
pub proof fn lemma_pad_aligned(data: Seq<u8>)
    ensures
        pkcs7_pad(data).len() % 16 == 0,
        pkcs7_pad(data).len() >= 16,
{
    let n = data.len();
    assert((n + (16 - n % 16)) % 16 == 0) by (nonlinear_arith);
}

/// Codec round trip: stripping the padding that `pkcs7_pad` appended gives
/// back the original content.
pub proof fn lemma_codec_roundtrip(data: Seq<u8>)
    ensures
        pkcs7_unpad(pkcs7_pad(data)) == Some(data),
{
    let padded = pkcs7_pad(data);
    let p = pad_len_of(data.len());
    assert(padded.last() == p as u8);
    assert(padded.take(padded.len() - p) =~= data);
}

} // verus!
