//! The AEAD (AES-SIV-CMAC-256) and the random source, as the rest of the
//! library sees them.
use vstd::prelude::*;
use aes_siv::siv::Aes128Siv;
use aes_siv::KeyInit;
use rand::Rng;

verus! {

/// What sealing `pt` under `key`, with associated data `ad` and nonce `nonce`, gives.
pub uninterp spec fn siv_seal(key: Seq<u8>, nonce: Seq<u8>, ad: Seq<u8>, pt: Seq<u8>) -> Seq<u8>;

/// What opening `ct` under `key`, with associated data `ad` and nonce `nonce`, gives:
/// the plaintext, or nothing when the tag does not match.
pub uninterp spec fn siv_open(key: Seq<u8>, nonce: Seq<u8>, ad: Seq<u8>, ct: Seq<u8>) -> Option<
    Seq<u8>,
>;

/// Relies on aes_siv's `Siv::encrypt` with the headers `[ad, nonce]`, the order that
/// the crate's own AEAD interface uses: the result is determined by its inputs, is
/// the 16-byte synthetic IV followed by a ciphertext as long as the plaintext, and
/// opens back to the plaintext. With two headers the call does not fail.
#[verifier::external_body]
pub(crate) fn seal(key: &[u8], nonce: &[u8], ad: &[u8], pt: &[u8]) -> (r: Vec<u8>)
    requires
        key@.len() == 32,
    ensures
        r@ == siv_seal(key@, nonce@, ad@, pt@),
        r@.len() == pt@.len() + 16,
        siv_open(key@, nonce@, ad@, r@) == Some(pt@),
{
    let mut cipher = <Aes128Siv as KeyInit>::new(aes_siv::Key::<Aes128Siv>::from_slice(key));
    cipher.encrypt([ad, nonce], pt).unwrap_or_default()
}

/// Relies on aes_siv's `Siv::decrypt` with the headers `[ad, nonce]`: the plaintext
/// when the synthetic IV checks, nothing otherwise.
#[verifier::external_body]
pub(crate) fn open(key: &[u8], nonce: &[u8], ad: &[u8], ct: &[u8]) -> (r: Option<Vec<u8>>)
    requires
        key@.len() == 32,
    ensures
        match r {
            Some(p) => siv_open(key@, nonce@, ad@, ct@) == Some(p@),
            None => siv_open(key@, nonce@, ad@, ct@).is_none(),
        },
{
    let mut cipher = <Aes128Siv as KeyInit>::new(aes_siv::Key::<Aes128Siv>::from_slice(key));
    cipher.decrypt([ad, nonce], ct).ok()
}

/// Relies on rand's `thread_rng` and `Rng::fill`: `n` bytes from the thread's generator.
#[verifier::external_body]
pub(crate) fn random_bytes(n: usize) -> (r: Vec<u8>)
    ensures
        r@.len() == n,
{
    let mut v = vec![0u8; n];
    rand::thread_rng().fill(&mut v[..]);
    v
}

} // verus!
