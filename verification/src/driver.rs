//! Block cipher driver: applies the AES-256 block transform independently to
//! each 16-byte chunk of a block-aligned buffer, in order, and concatenates
//! the results. No chaining value is carried between chunks, so each output
//! block depends only on its own input block and the key.

use aes::cipher::generic_array::GenericArray;
use aes::cipher::{BlockDecrypt, BlockEncrypt, KeyInit};
use aes::Aes256;
use vstd::prelude::*;
use vstd::slice::slice_subrange;

use crate::codec::{pkcs7_decode, pkcs7_encode, pkcs7_pad, pkcs7_unpad};
use crate::codec::lemma_pad_aligned;
use crate::errors::CryptoError;

verus! {

/// Which way the block transform runs.
#[derive(Clone, Copy, Debug, PartialEq, Eq, Structural)]
pub enum Direction {
    Encrypt,
    Decrypt,
}

/// The direction that undoes `d`.
pub open spec fn opposite(d: Direction) -> Direction {
    match d {
        Direction::Encrypt => Direction::Decrypt,
        Direction::Decrypt => Direction::Encrypt,
    }
}

/// The block that AES-256 encryption produces from a 16-byte block under a
/// 32-byte key. The transform is a fixed function of block and key alone; it
/// is named here, not written out.
pub uninterp spec fn aes256_enc(block: Seq<u8>, key: Seq<u8>) -> Seq<u8>;

/// The block that AES-256 decryption produces from a 16-byte block under a
/// 32-byte key.
pub uninterp spec fn aes256_dec(block: Seq<u8>, key: Seq<u8>) -> Seq<u8>;

/// The block transform in the given direction.
pub open spec fn block_transform(block: Seq<u8>, key: Seq<u8>, d: Direction) -> Seq<u8> {
    match d {
        Direction::Encrypt => aes256_enc(block, key),
        Direction::Decrypt => aes256_dec(block, key),
    }
}

/// The transformed 16-byte chunks of `input`, in order, one sequence per
/// chunk (a trailing partial chunk is dropped).
pub open spec fn ecb_blocks(input: Seq<u8>, key: Seq<u8>, d: Direction) -> Seq<Seq<u8>>
    decreases input.len(),
{
    if input.len() < 16 {
        Seq::empty()
    } else {
        seq![block_transform(input.take(16), key, d)] + ecb_blocks(input.skip(16), key, d)
    }
}

/// The `i`-th 16-byte chunk of a buffer.
pub open spec fn chunk_at(s: Seq<u8>, i: int) -> Seq<u8> {
    s.subrange(16 * i, 16 * i + 16)
}

/// The chunkwise transform of a buffer: the transformed chunks of
/// `ecb_blocks`, concatenated in order.
pub open spec fn ecb_process(input: Seq<u8>, key: Seq<u8>, d: Direction) -> Seq<u8>
    decreases input.len(),
{
    if input.len() < 16 {
        Seq::empty()
    } else {
        block_transform(input.take(16), key, d) + ecb_process(input.skip(16), key, d)
    }
}

/// Relies on the `aes` crate: `Aes256` (`cipher::KeyInit::new`) bound to
/// `key`, with `cipher::BlockEncrypt::encrypt_block`, maps a 16-byte block
/// to the 16-byte block named `aes256_enc`; decryption, named `aes256_dec`,
/// computes the inverse permutation.
#[verifier::external_body]
fn encrypt_block(block: &[u8], key: &[u8; 32]) -> (out: Vec<u8>)
    requires
        block@.len() == 16,
    ensures
        out@ == aes256_enc(block@, key@),
        out@.len() == 16,
        aes256_dec(out@, key@) == block@,
{
    let cipher = Aes256::new(GenericArray::from_slice(key));
    let mut b = GenericArray::clone_from_slice(block);
    cipher.encrypt_block(&mut b);
    b.to_vec()
}

/// Relies on the `aes` crate: `Aes256` (`cipher::KeyInit::new`) bound to
/// `key`, with `cipher::BlockDecrypt::decrypt_block`, maps a 16-byte block
/// to the 16-byte block named `aes256_dec`; encryption, named `aes256_enc`,
/// computes the inverse permutation.
#[verifier::external_body]
fn decrypt_block(block: &[u8], key: &[u8; 32]) -> (out: Vec<u8>)
    requires
        block@.len() == 16,
    ensures
        out@ == aes256_dec(block@, key@),
        out@.len() == 16,
        aes256_enc(out@, key@) == block@,
{
    let cipher = Aes256::new(GenericArray::from_slice(key));
    let mut b = GenericArray::clone_from_slice(block);
    cipher.decrypt_block(&mut b);
    b.to_vec()
}

/// Appending one whole block to a block-aligned buffer appends its
/// transform to the buffer's chunkwise transform.
proof fn lemma_ecb_append_block(x: Seq<u8>, b: Seq<u8>, key: Seq<u8>, d: Direction)
    requires
        x.len() % 16 == 0,
        b.len() == 16,
    ensures
        ecb_process(x + b, key, d) == ecb_process(x, key, d) + block_transform(b, key, d),
    decreases x.len(),
{
    if x.len() == 0 {
        assert((x + b).take(16) =~= b);
        assert((x + b).skip(16) =~= Seq::<u8>::empty());
        assert(ecb_process(Seq::<u8>::empty(), key, d) == Seq::<u8>::empty());
        assert(ecb_process(x + b, key, d) =~= block_transform(b, key, d));
        assert(ecb_process(x, key, d) + block_transform(b, key, d) =~= block_transform(
            b,
            key,
            d,
        ));
    } else {
        assert((x + b).take(16) =~= x.take(16));
        assert((x + b).skip(16) =~= x.skip(16) + b);
        lemma_ecb_append_block(x.skip(16), b, key, d);
    }
}

/// Applies the block transform to each 16-byte chunk of `input` in order and
/// concatenates the results. The input must be block-aligned; a misaligned
/// input is rejected whole, never truncated or partially processed.
///
/// On success the output is the chunkwise transform of the input, exactly as
/// long as the input, each of its 16-byte chunks the transform of the input
/// chunk at the same position, and running the output through the opposite
/// direction gives the input back.
pub fn process(input: &[u8], key: &[u8; 32], direction: Direction) -> (r: Result<
    Vec<u8>,
    CryptoError,
>)
    ensures
        r is Ok <==> input@.len() % 16 == 0,
        input@.len() % 16 == 0 ==> {
            &&& r->Ok_0@ == ecb_process(input@, key@, direction)
            &&& r->Ok_0@.len() == input@.len()
            &&& forall|i: int|
                0 <= i && 16 * i + 16 <= input@.len() ==> chunk_at(r->Ok_0@, i)
                    == block_transform(chunk_at(input@, i), key@, direction)
            &&& ecb_process(r->Ok_0@, key@, opposite(direction)) == input@
        },
        input@.len() % 16 != 0 ==> r == Err::<Vec<u8>, CryptoError>(
            CryptoError::AlignmentViolation,
        ),
{
    let n = input.len();
    if n % 16 != 0 {
        return Err(CryptoError::AlignmentViolation);
    }
    let mut out: Vec<u8> = Vec::new();
    let mut i: usize = 0;
    while i < n
        invariant
            n == input@.len(),
            n % 16 == 0,
            i % 16 == 0,
            i <= n,
            out@.len() == i,
            out@ == ecb_process(input@.take(i as int), key@, direction),
            forall|k: int|
                0 <= k && 16 * k + 16 <= i ==> chunk_at(out@, k) == block_transform(
                    chunk_at(input@, k),
                    key@,
                    direction,
                ),
            ecb_process(out@, key@, opposite(direction)) == input@.take(i as int),
        decreases n - i,
    {
        proof {
            assert((n - i) % 16 == 0) by (nonlinear_arith)
                requires
                    n % 16 == 0,
                    i % 16 == 0,
                    i <= n,
            ;
            assert(n - i >= 16);
        }
        let chunk = slice_subrange(input, i, i + 16);
        let mut c = match direction {
            Direction::Encrypt => encrypt_block(chunk, key),
            Direction::Decrypt => decrypt_block(chunk, key),
        };
        let ghost prev = out@;
        let ghost cv = c@;
        proof {
            lemma_ecb_append_block(input@.take(i as int), chunk@, key@, direction);
            lemma_ecb_append_block(prev, cv, key@, opposite(direction));
            assert(input@.take(i + 16) =~= input@.take(i as int) + chunk@);
        }
        out.append(&mut c);
        proof {
            assert forall|k: int| 0 <= k && 16 * k + 16 <= i + 16 implies chunk_at(out@, k)
                == block_transform(chunk_at(input@, k), key@, direction) by {
                if 16 * k + 16 <= i {
                    assert(chunk_at(out@, k) =~= chunk_at(prev, k));
                } else {
                    assert(16 * k == i);
                    assert(chunk_at(out@, k) =~= cv);
                    assert(chunk_at(input@, k) =~= chunk@);
                }
            }
        }
        i = i + 16;
    }
    proof {
        assert(n - i < 16);
        assert(input@.take(i as int) =~= input@);
    }
    Ok(out)
}

/// The number of chunks that `ecb_blocks` yields.
pub proof fn lemma_ecb_blocks_len(input: Seq<u8>, key: Seq<u8>, d: Direction)
    ensures
        ecb_blocks(input, key, d).len() == input.len() / 16,
    decreases input.len(),
{
    if input.len() < 16 {
    } else {
        lemma_ecb_blocks_len(input.skip(16), key, d);
    }
}

/// Chunk `i` of `ecb_blocks` is the transform of chunk `i` of the input.
pub proof fn lemma_ecb_blocks_index(input: Seq<u8>, key: Seq<u8>, d: Direction, i: int)
    requires
        0 <= i,
        16 * i + 16 <= input.len(),
    ensures
        i < ecb_blocks(input, key, d).len(),
        ecb_blocks(input, key, d)[i] == block_transform(chunk_at(input, i), key, d),
    decreases input.len(),
{
    lemma_ecb_blocks_len(input, key, d);
    if i == 0 {
        assert(input.take(16) =~= chunk_at(input, 0));
    } else {
        lemma_ecb_blocks_index(input.skip(16), key, d, i - 1);
        assert(chunk_at(input.skip(16), i - 1) =~= chunk_at(input, i));
    }
}

/// Blockwise determinism of the electronic-codebook mode: equal 16-byte
/// chunks, at any positions of any two inputs, transform to equal output
/// blocks under the same key. In particular, two inputs that differ in one
/// chunk keep identical output blocks everywhere else.
pub proof fn lemma_ecb_determinism(
    a: Seq<u8>,
    b: Seq<u8>,
    key: Seq<u8>,
    d: Direction,
    i: int,
    j: int,
)
    requires
        0 <= i && 16 * i + 16 <= a.len(),
        0 <= j && 16 * j + 16 <= b.len(),
        chunk_at(a, i) == chunk_at(b, j),
    ensures
        i < ecb_blocks(a, key, d).len(),
        j < ecb_blocks(b, key, d).len(),
        ecb_blocks(a, key, d)[i] == ecb_blocks(b, key, d)[j],
{
    lemma_ecb_blocks_index(a, key, d, i);
    lemma_ecb_blocks_index(b, key, d, j);
}

/// Pipeline round trip: a ciphertext whose chunkwise decryption is the
/// padded content decodes back to the content itself, whatever the content.
///
/// The premise is exactly what `encrypt_aes256` ensures of its output (the
/// block transform's inverse fact comes from the `aes` crate's contract), so
/// together with the contract of `decrypt_aes256` this gives the byte-exact
/// round trip of the whole pipeline.
pub proof fn lemma_pipeline_roundtrip(data: Seq<u8>, key: Seq<u8>, ciphertext: Seq<u8>)
    requires
        ecb_process(ciphertext, key, Direction::Decrypt) == pkcs7_pad(data),
    ensures
        pkcs7_unpad(ecb_process(ciphertext, key, Direction::Decrypt)) == Some(data),
{
    crate::codec::lemma_codec_roundtrip(data);
}

/// Encrypts arbitrary content under a 32-byte key: the content is PKCS7
/// padded to a block-aligned buffer, and each 16-byte chunk is then
/// transformed independently. The ciphertext is block-aligned, exactly one
/// padding's worth longer than the content, and decrypting it chunkwise
/// gives the padded content back.
pub fn encrypt_aes256(plaintext: &[u8], key: &[u8; 32]) -> (out: Vec<u8>)
    ensures
        out@ == ecb_process(pkcs7_pad(plaintext@), key@, Direction::Encrypt),
        out@.len() == pkcs7_pad(plaintext@).len(),
        out@.len() % 16 == 0,
        ecb_process(out@, key@, Direction::Decrypt) == pkcs7_pad(plaintext@),
{
    let padded = pkcs7_encode(plaintext);
    proof {
        lemma_pad_aligned(plaintext@);
    }
    match process(padded.as_slice(), key, Direction::Encrypt) {
        Ok(c) => c,
        Err(_) => vstd::pervasive::unreached(),
    }
}

/// Decrypts a block-aligned ciphertext under a 32-byte key and strips the
/// PKCS7 padding. A misaligned input is rejected whole with
/// `AlignmentViolation`; a decrypted buffer whose trailing byte is not a
/// usable padding length is rejected with `PaddingAmbiguity`; otherwise the
/// recovered content is returned.
pub fn decrypt_aes256(ciphertext: &[u8], key: &[u8; 32]) -> (r: Result<Vec<u8>, CryptoError>)
    ensures
        ciphertext@.len() % 16 != 0 ==> r == Err::<Vec<u8>, CryptoError>(
            CryptoError::AlignmentViolation,
        ),
        ciphertext@.len() % 16 == 0 ==> {
            let plain = ecb_process(ciphertext@, key@, Direction::Decrypt);
            &&& pkcs7_unpad(plain) is Some ==> r is Ok && r->Ok_0@ == pkcs7_unpad(plain)->Some_0
            &&& pkcs7_unpad(plain) is None ==> r == Err::<Vec<u8>, CryptoError>(
                CryptoError::PaddingAmbiguity,
            )
        },
{
    match process(ciphertext, key, Direction::Decrypt) {
        Ok(padded) => pkcs7_decode(padded.as_slice()),
        Err(e) => Err(e),
    }
}

} // verus!
