//! A small symmetric-encryption core: PKCS7 padding over a 16-byte block
//! size, and an AES-256 electronic-codebook driver that applies the block
//! transform independently to each chunk of a block-aligned buffer.
//!
//! The block primitive itself comes from the `aes` crate; everything around
//! it — padding, alignment checks, chunk iteration, padding removal — is
//! verified, with the buffers modelled as byte sequences.

pub mod codec;
pub mod driver;
pub mod errors;

pub use codec::pkcs7_decode;
pub use codec::pkcs7_encode;
pub use driver::decrypt_aes256;
pub use driver::encrypt_aes256;
pub use driver::process;
pub use driver::Direction;
pub use errors::CryptoError;
