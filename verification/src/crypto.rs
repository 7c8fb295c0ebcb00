//! Cryptographic primitives of the unlock pipeline.
//!
//! The hash, the ciphers and the keyed hash are computed by the `sha2`,
//! `twofish`, `ecb`, `cbc` and `hmac` crates; each call sits behind a
//! trusted wrapper whose contract names the result as a pure function of
//! the inputs.  The key-stretching loop and the authenticator's
//! bookkeeping, which are this library's own logic, are verified against
//! those names.

use vstd::prelude::*;

use cbc::cipher::block_padding::NoPadding;
use cbc::cipher::{BlockModeDecrypt, KeyInit, KeyIvInit};
use hmac::Mac;
use sha2::Digest;

verus! {

use vstd::string::StringSliceAdditionalSpecFns;

/// The SHA-256 digest (32 bytes) of a byte sequence.
pub uninterp spec fn sha256_of(data: Seq<u8>) -> Seq<u8>;

/// The Twofish decryption of two independent 16-byte blocks (no chaining)
/// under a 32-byte key.
pub uninterp spec fn twofish_ecb_decrypt_of(block: Seq<u8>, key: Seq<u8>) -> Seq<u8>;

/// The Twofish CBC decryption of a whole buffer under a 32-byte key and a
/// 16-byte initialization vector.
pub uninterp spec fn twofish_cbc_decrypt_of(data: Seq<u8>, key: Seq<u8>, iv: Seq<u8>) -> Seq<u8>;

/// The HMAC-SHA256 tag (32 bytes) of a byte sequence under a key.
pub uninterp spec fn hmac_sha256_of(key: Seq<u8>, data: Seq<u8>) -> Seq<u8>;

/// Relies on the `sha2` crate's SHA-256: the digest is a pure 32-byte
/// function of the input bytes.
#[verifier::external_body]
pub fn sha256(input: &[u8]) -> (r: Vec<u8>)
    ensures
        r@ == sha256_of(input@),
        r@.len() == 32,
{
    let mut h = sha2::Sha256::new();
    h.update(input);
    h.finalize().to_vec()
}

/// Relies on the `ecb` and `twofish` crates: the two 16-byte blocks are
/// decrypted independently, a pure function of ciphertext and key.  With a
/// 32-byte key and whole blocks, neither call can fail.
#[verifier::external_body]
pub fn decrypt_block_ecb(block: &[u8], key: &[u8]) -> (r: Vec<u8>)
    requires
        block@.len() == 32,
        key@.len() == 32,
    ensures
        r@ == twofish_ecb_decrypt_of(block@, key@),
        r@.len() == 32,
{
    let mut buf = block.to_vec();
    let c = ecb::Decryptor::<twofish::Twofish>::new_from_slice(key)
        .expect("Twofish accepts a 32-byte key");
    c.decrypt_padded::<NoPadding>(&mut buf)
        .expect("the input is whole blocks");
    buf
}

/// Relies on the `cbc` and `twofish` crates: the buffer is replaced by its
/// CBC decryption, a pure function of ciphertext, key, and initialization
/// vector.  With a 32-byte key, a 16-byte vector and whole blocks, neither
/// call can fail, and the length never changes.
#[verifier::external_body]
pub fn decrypt_inplace(data: &mut Vec<u8>, key: &[u8], iv: &[u8])
    requires
        old(data)@.len() % 16 == 0,
        key@.len() == 32,
        iv@.len() == 16,
    ensures
        final(data)@ == twofish_cbc_decrypt_of(old(data)@, key@, iv@),
        final(data)@.len() == old(data)@.len(),
{
    let c = cbc::Decryptor::<twofish::Twofish>::new_from_slices(key, iv)
        .expect("Twofish accepts a 32-byte key and a 16-byte IV");
    c.decrypt_padded::<NoPadding>(data.as_mut_slice())
        .expect("the input is whole blocks");
}

/// Incremental keyed-hash accumulator over the decoded field values,
/// verified at the very end of parsing against the stored tag.
///
/// The accumulator itself is plain bookkeeping — the key and the bytes
/// written so far — and is verified; only the final comparison computes
/// the HMAC, through one trusted call.
pub struct HMAC {
    key_bytes: Vec<u8>,
    data_bytes: Vec<u8>,
}

impl HMAC {
    /// The key this accumulator was created with.
    pub closed spec fn key(self) -> Seq<u8> {
        self.key_bytes@
    }

    /// All bytes fed to the accumulator so far, in order.
    pub closed spec fn data(self) -> Seq<u8> {
        self.data_bytes@
    }

    /// A fresh accumulator keyed with `key`.
    pub fn new(key: &[u8]) -> (h: HMAC)
        ensures
            h.key() == key@,
            h.data() == Seq::<u8>::empty(),
    {
        HMAC { key_bytes: vstd::slice::slice_to_vec(key), data_bytes: Vec::new() }
    }

    /// Appends bytes to the authenticated stream.
    pub fn update(&mut self, data: &[u8])
        ensures
            final(self).key() == old(self).key(),
            final(self).data() == old(self).data() + data@,
    {
        push_all(&mut self.data_bytes, data);
    }

    /// Relies on the `hmac` crate with SHA-256 (`verify_slice`, a
    /// constant-time comparison against the full tag): it succeeds exactly
    /// when the given 32-byte tag equals the HMAC of the stream written so
    /// far.
    #[verifier::external_body]
    pub fn verify(&self, expected: &[u8]) -> (r: bool)
        requires
            expected@.len() == 32,
        ensures
            r == (expected@ == hmac_sha256_of(self.key(), self.data())),
    {
        let mut m = hmac::Hmac::<sha2::Sha256>::new_from_slice(self.key_bytes.as_slice())
            .expect("HMAC accepts any key length");
        m.update(self.data_bytes.as_slice());
        m.verify_slice(expected).is_ok()
    }
}

/// One round of re-hashing, iterated: `stretch_iter_of(d, n)` is the digest
/// after hashing `d` in place `n` times.
pub open spec fn stretch_iter_of(d: Seq<u8>, n: nat) -> Seq<u8>
    decreases n,
{
    if n == 0 {
        d
    } else {
        sha256_of(stretch_iter_of(d, (n - 1) as nat))
    }
}

/// The stretched key: the digest of `password || salt`, re-hashed
/// `iterations` times.
pub open spec fn stretch_of(password: Seq<u8>, salt: Seq<u8>, iterations: u32) -> Seq<u8> {
    stretch_iter_of(sha256_of(password + salt), iterations as nat)
}

/// Appends every byte of `src` to `dst`.
pub(crate) fn push_all(dst: &mut Vec<u8>, src: &[u8])
    ensures
        final(dst)@ == old(dst)@ + src@,
{
    let mut i: usize = 0;
    while i < src.len()
        invariant
            i <= src@.len(),
            dst@ == old(dst)@ + src@.subrange(0, i as int),
        decreases src@.len() - i,
    {
        dst.push(src[i]);
        i = i + 1;
        proof {
            assert(dst@ =~= old(dst)@ + src@.subrange(0, i as int));
        }
    }
    proof {
        assert(dst@ =~= old(dst)@ + src@);
    }
}

/// Derives the 32-byte working key from a password and salt by iterated
/// hashing: an initial digest over `password || salt`, then `iterations`
/// rounds of re-hashing the digest in place.
pub fn stretch(password: &str, salt: &[u8], iterations: u32) -> (r: Vec<u8>)
    ensures
        r@ == stretch_of(password.spec_bytes(), salt@, iterations),
        r@.len() == 32,
{
    let mut seed: Vec<u8> = Vec::new();
    push_all(&mut seed, password.as_bytes());
    push_all(&mut seed, salt);
    proof {
        assert(seed@ == password.spec_bytes() + salt@);
    }
    let mut b = sha256(seed.as_slice());
    let mut i: u32 = 0;
    while i < iterations
        invariant
            i <= iterations,
            b@ == stretch_iter_of(sha256_of(password.spec_bytes() + salt@), i as nat),
            b@.len() == 32,
        decreases iterations - i,
    {
        b = sha256(b.as_slice());
        i = i + 1;
    }
    b
}

/// Key stretching is deterministic: two stretched keys derived from the
/// same password, salt, and iteration count are equal.  Combined with
/// [`stretch`]'s contract, two calls on identical inputs return identical
/// 32-byte outputs.
pub proof fn lemma_stretch_deterministic(
    password: Seq<u8>,
    salt: Seq<u8>,
    iterations: u32,
    r1: Seq<u8>,
    r2: Seq<u8>,
)
    requires
        r1 == stretch_of(password, salt, iterations),
        r2 == stretch_of(password, salt, iterations),
    ensures
        r1 == r2,
{
}

} // verus!
