//! AES-256 in CBC mode.
use vstd::prelude::*;

verus! {

/// The plaintext that AES-256-CBC decryption of `data` under `key` and `iv`
/// yields, with block padding removed.
pub uninterp spec fn aes256_cbc_decrypt_of(key: Seq<u8>, iv: Seq<u8>, data: Seq<u8>) -> Seq<u8>;

/// Relies on libaes::Cipher::new_256 and Cipher::cbc_decrypt: the decryption
/// depends on key, iv and data alone, and data whose length is not a multiple
/// of the 16-byte block gives an empty result.
#[verifier::external_body]
pub fn decrypt(data: &[u8], key: &[u8], iv: &[u8]) -> (r: Vec<u8>)
    requires
        key@.len() == 32,
        iv@.len() == 16,
    ensures
        r@ == aes256_cbc_decrypt_of(key@, iv@, data@),
        data@.len() % 16 != 0 ==> r@.len() == 0,
{
    let key: &[u8; 32] = key.try_into().unwrap();
    libaes::Cipher::new_256(key).cbc_decrypt(iv, data)
}

} // verus!
