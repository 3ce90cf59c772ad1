use aes_gcm::aead::generic_array::GenericArray;
use aes_gcm::aead::{Aead, NewAead};
use aes_gcm::Aes256Gcm;
use vstd::arithmetic::power2::pow2;
use vstd::prelude::*;

verus! {

/// The key that `scrypt::scrypt` derives from a password and salt under the
/// given cost parameters and output length. The derivation is deterministic
/// and depends on these arguments alone; its value is not axiomatized here.
pub uninterp spec fn scrypt_key(
    password: Seq<u8>,
    salt: Seq<u8>,
    log_n: u8,
    r: u32,
    p: u32,
    len: usize,
) -> Seq<u8>;

/// Whether `scrypt::Params::new` accepts the cost parameters: the factors
/// must be nonzero, the block sizes `128 * r * 2^log_n` and `128 * r * p`
/// must be addressable on the build's platform, the cost exponent must stay
/// below `16 * r`, and `r * p` below `2^30`.
pub open spec fn scrypt_params_valid(log_n: u8, r: u32, p: u32) -> bool {
    &&& r >= 1
    &&& p >= 1
    &&& pow2(log_n as nat) <= usize::MAX
    &&& 128 * (r as int) <= usize::MAX
    &&& 128 * (r as int) * pow2(log_n as nat) <= usize::MAX
    &&& 128 * (r as int) * (p as int) <= usize::MAX
    &&& (log_n as int) < 16 * (r as int)
    &&& (r as int) * (p as int) < 0x4000_0000
}

/// The ciphertext-with-tag that AES-256-GCM produces for a plaintext under a
/// 32-byte key and 12-byte nonce, with no associated data.
pub uninterp spec fn aes256_gcm_seal(key: Seq<u8>, nonce: Seq<u8>, plaintext: Seq<u8>) -> Seq<u8>;

/// The plaintext that AES-256-GCM authenticated decryption recovers from a
/// ciphertext-with-tag, or `None` when tag verification fails.
pub uninterp spec fn aes256_gcm_open(
    key: Seq<u8>,
    nonce: Seq<u8>,
    ciphertext: Seq<u8>,
) -> Option<Seq<u8>>;

/// Relies on `scrypt::Params::new` and `scrypt::scrypt`.
///
/// `Params::new` validates the cost parameters before any derivation work is
/// done, accepting exactly [`scrypt_params_valid`]; `scrypt` then fills an
/// output buffer of the requested length, and rejects only a length of zero
/// or above `(2^32 - 1) * 32`. The derived bytes are a pure function of
/// password, salt, parameters and length, named [`scrypt_key`].
#[verifier::external_body]
pub(crate) fn scrypt_derive(
    password: &[u8],
    salt: &[u8],
    log_n: u8,
    r: u32,
    p: u32,
    len: usize,
) -> (res: Option<Vec<u8>>)
    ensures
        res is Some <==> (scrypt_params_valid(log_n, r, p) && 0 < len && len / 32
            <= 0xffff_ffff),
        res matches Some(key) ==> key@ == scrypt_key(password@, salt@, log_n, r, p, len)
            && key@.len() == len,
{
    let params = match scrypt::Params::new(log_n, r, p) {
        Ok(params) => params,
        Err(_) => return None,
    };
    let mut key = vec![0u8; len];
    match scrypt::scrypt(password, salt, &params, &mut key) {
        Ok(()) => Some(key),
        Err(_) => None,
    }
}

/// Relies on `aes_gcm::Aes256Gcm` (`NewAead::new`, `Aead::encrypt`).
///
/// With no associated data, encryption fails only when the plaintext is
/// longer than `2^36` bytes; otherwise it returns the ciphertext with the
/// 16-byte authentication tag appended, a pure function of key, nonce and
/// plaintext, named [`aes256_gcm_seal`]. Decrypting that ciphertext with the
/// same key and nonce recovers the plaintext, which is stated through
/// [`aes256_gcm_open`].
#[verifier::external_body]
pub(crate) fn aes_gcm_encrypt(key: &Vec<u8>, nonce: &Vec<u8>, plaintext: &Vec<u8>) -> (res: Option<
    Vec<u8>,
>)
    requires
        key@.len() == 32,
        nonce@.len() == 12,
    ensures
        res is Some <==> plaintext@.len() <= 0x10_0000_0000,
        res matches Some(ct) ==> {
            &&& ct@ == aes256_gcm_seal(key@, nonce@, plaintext@)
            &&& ct@.len() == plaintext@.len() + 16
            &&& aes256_gcm_open(key@, nonce@, ct@) == Some(plaintext@)
        },
{
    let cipher = Aes256Gcm::new(GenericArray::from_slice(key.as_slice()));
    cipher.encrypt(GenericArray::from_slice(nonce.as_slice()), plaintext.as_slice()).ok()
}

/// Relies on `aes_gcm::Aes256Gcm` (`NewAead::new`, `Aead::decrypt`).
///
/// Authenticated decryption of a ciphertext-with-tag is a pure function of
/// key, nonce and ciphertext, named [`aes256_gcm_open`]: it either recovers a
/// plaintext or fails verification, and this call returns exactly that
/// outcome.
#[verifier::external_body]
pub(crate) fn aes_gcm_decrypt(key: &Vec<u8>, nonce: &Vec<u8>, ciphertext: &Vec<u8>) -> (res:
    Option<Vec<u8>>)
    requires
        key@.len() == 32,
        nonce@.len() == 12,
    ensures
        match res {
            Some(pt) => aes256_gcm_open(key@, nonce@, ciphertext@) == Some(pt@),
            None => aes256_gcm_open(key@, nonce@, ciphertext@) is None,
        },
{
    let cipher = Aes256Gcm::new(GenericArray::from_slice(key.as_slice()));
    cipher.decrypt(GenericArray::from_slice(nonce.as_slice()), ciphertext.as_slice()).ok()
}

} // verus!
