//! AEAD primitive: AES-GCM with a 96-bit IV and a 128-bit tag.
//!
//! The cipher itself is an outside implementation; this module gives its two
//! directions names (`gcm_enc`, `gcm_dec`, `gcm_tag`) and exposes a keyed box
//! whose contracts are stated over those names. GCM is deterministic: for a
//! fixed key and IV, the ciphertext is a function of the plaintext alone, and
//! the tag a function of the IV, the associated data and the ciphertext.

use vstd::prelude::*;

use aes_gcm::{AeadInPlace, KeyInit};

use crate::errors::DiskError;

verus! {

/// Ciphertext that AES-GCM produces from a key, an IV and a plaintext.
pub uninterp spec fn gcm_enc(key: Seq<u8>, iv: Seq<u8>, pt: Seq<u8>) -> Seq<u8>;

/// Plaintext that AES-GCM's decryption direction produces from a key, an IV
/// and a ciphertext. Inverse of `gcm_enc` for a fixed key and IV.
pub uninterp spec fn gcm_dec(key: Seq<u8>, iv: Seq<u8>, ct: Seq<u8>) -> Seq<u8>;

/// The 16-byte authentication tag AES-GCM computes over the associated data
/// and the ciphertext, under a key and an IV.
pub uninterp spec fn gcm_tag(key: Seq<u8>, iv: Seq<u8>, aad: Seq<u8>, ct: Seq<u8>) -> Seq<u8>;

/// AES-GCM accepts 128-, 192- and 256-bit keys.
pub open spec fn valid_key_len(n: int) -> bool {
    n == 16 || n == 24 || n == 32
}

/// Relies on `aes_gcm::Aes128Gcm::encrypt_in_place_detached`: applies the
/// keystream determined by (key, iv) to the buffer, then computes the tag
/// over the associated data and the ciphertext; applying the keystream again
/// recovers the plaintext. Infallible for sizes far below the GCM limits.
#[verifier::external_body]
fn gcm_seal_128(key: &Vec<u8>, iv: &Vec<u8>, aad: &Vec<u8>, pt: &Vec<u8>) -> (r: (Vec<u8>, Vec<u8>))
    requires
        key@.len() == 16,
        iv@.len() == 12,
        pt@.len() <= 0x10000000,
        aad@.len() <= 0x10000000,
    ensures
        r.0@.len() == pt@.len(),
        r.0@ == gcm_enc(key@, iv@, pt@),
        r.1@.len() == 16,
        r.1@ == gcm_tag(key@, iv@, aad@, r.0@),
        gcm_dec(key@, iv@, r.0@) == pt@,
{
    let cipher = aes_gcm::Aes128Gcm::new_from_slice(key.as_slice()).unwrap();
    let mut buf = pt.clone();
    let tag = cipher
        .encrypt_in_place_detached(
            aes_gcm::Nonce::from_slice(iv.as_slice()),
            aad.as_slice(),
            buf.as_mut_slice(),
        )
        .unwrap();
    (buf, tag.as_slice().to_vec())
}

/// Relies on `aes_gcm::AesGcm::<Aes192, U12>::encrypt_in_place_detached`,
/// exactly as the 128-bit wrapper does.
#[verifier::external_body]
fn gcm_seal_192(key: &Vec<u8>, iv: &Vec<u8>, aad: &Vec<u8>, pt: &Vec<u8>) -> (r: (Vec<u8>, Vec<u8>))
    requires
        key@.len() == 24,
        iv@.len() == 12,
        pt@.len() <= 0x10000000,
        aad@.len() <= 0x10000000,
    ensures
        r.0@.len() == pt@.len(),
        r.0@ == gcm_enc(key@, iv@, pt@),
        r.1@.len() == 16,
        r.1@ == gcm_tag(key@, iv@, aad@, r.0@),
        gcm_dec(key@, iv@, r.0@) == pt@,
{
    let cipher = <aes_gcm::AesGcm<
        aes_gcm::aes::Aes192,
        aes_gcm::aead::consts::U12,
    > as KeyInit>::new_from_slice(key.as_slice()).unwrap();
    let mut buf = pt.clone();
    let tag = cipher
        .encrypt_in_place_detached(
            aes_gcm::Nonce::from_slice(iv.as_slice()),
            aad.as_slice(),
            buf.as_mut_slice(),
        )
        .unwrap();
    (buf, tag.as_slice().to_vec())
}

/// Relies on `aes_gcm::Aes256Gcm::encrypt_in_place_detached`, exactly as the
/// 128-bit wrapper does.
#[verifier::external_body]
fn gcm_seal_256(key: &Vec<u8>, iv: &Vec<u8>, aad: &Vec<u8>, pt: &Vec<u8>) -> (r: (Vec<u8>, Vec<u8>))
    requires
        key@.len() == 32,
        iv@.len() == 12,
        pt@.len() <= 0x10000000,
        aad@.len() <= 0x10000000,
    ensures
        r.0@.len() == pt@.len(),
        r.0@ == gcm_enc(key@, iv@, pt@),
        r.1@.len() == 16,
        r.1@ == gcm_tag(key@, iv@, aad@, r.0@),
        gcm_dec(key@, iv@, r.0@) == pt@,
{
    let cipher = aes_gcm::Aes256Gcm::new_from_slice(key.as_slice()).unwrap();
    let mut buf = pt.clone();
    let tag = cipher
        .encrypt_in_place_detached(
            aes_gcm::Nonce::from_slice(iv.as_slice()),
            aad.as_slice(),
            buf.as_mut_slice(),
        )
        .unwrap();
    (buf, tag.as_slice().to_vec())
}

/// Relies on `aes_gcm::Aes128Gcm::decrypt_in_place_detached`: recomputes the
/// tag over the associated data and the ciphertext, compares it with the
/// given tag, and only on a match applies the keystream and returns the
/// plaintext.
#[verifier::external_body]
fn gcm_open_128(key: &Vec<u8>, iv: &Vec<u8>, aad: &Vec<u8>, ct: &Vec<u8>, tag: &Vec<u8>) -> (r:
    Option<Vec<u8>>)
    requires
        key@.len() == 16,
        iv@.len() == 12,
        ct@.len() <= 0x10000000,
        aad@.len() <= 0x10000000,
        tag@.len() == 16,
    ensures
        r is Some <==> tag@ == gcm_tag(key@, iv@, aad@, ct@),
        r matches Some(p) ==> p@.len() == ct@.len() && p@ == gcm_dec(key@, iv@, ct@),
{
    let cipher = aes_gcm::Aes128Gcm::new_from_slice(key.as_slice()).unwrap();
    let mut buf = ct.clone();
    match cipher.decrypt_in_place_detached(
        aes_gcm::Nonce::from_slice(iv.as_slice()),
        aad.as_slice(),
        buf.as_mut_slice(),
        aes_gcm::Tag::from_slice(tag.as_slice()),
    ) {
        Ok(()) => Some(buf),
        Err(_) => None,
    }
}

/// Relies on `aes_gcm::AesGcm::<Aes192, U12>::decrypt_in_place_detached`,
/// exactly as the 128-bit wrapper does.
#[verifier::external_body]
fn gcm_open_192(key: &Vec<u8>, iv: &Vec<u8>, aad: &Vec<u8>, ct: &Vec<u8>, tag: &Vec<u8>) -> (r:
    Option<Vec<u8>>)
    requires
        key@.len() == 24,
        iv@.len() == 12,
        ct@.len() <= 0x10000000,
        aad@.len() <= 0x10000000,
        tag@.len() == 16,
    ensures
        r is Some <==> tag@ == gcm_tag(key@, iv@, aad@, ct@),
        r matches Some(p) ==> p@.len() == ct@.len() && p@ == gcm_dec(key@, iv@, ct@),
{
    let cipher = <aes_gcm::AesGcm<
        aes_gcm::aes::Aes192,
        aes_gcm::aead::consts::U12,
    > as KeyInit>::new_from_slice(key.as_slice()).unwrap();
    let mut buf = ct.clone();
    match cipher.decrypt_in_place_detached(
        aes_gcm::Nonce::from_slice(iv.as_slice()),
        aad.as_slice(),
        buf.as_mut_slice(),
        aes_gcm::Tag::from_slice(tag.as_slice()),
    ) {
        Ok(()) => Some(buf),
        Err(_) => None,
    }
}

/// Relies on `aes_gcm::Aes256Gcm::decrypt_in_place_detached`, exactly as the
/// 128-bit wrapper does.
#[verifier::external_body]
fn gcm_open_256(key: &Vec<u8>, iv: &Vec<u8>, aad: &Vec<u8>, ct: &Vec<u8>, tag: &Vec<u8>) -> (r:
    Option<Vec<u8>>)
    requires
        key@.len() == 32,
        iv@.len() == 12,
        ct@.len() <= 0x10000000,
        aad@.len() <= 0x10000000,
        tag@.len() == 16,
    ensures
        r is Some <==> tag@ == gcm_tag(key@, iv@, aad@, ct@),
        r matches Some(p) ==> p@.len() == ct@.len() && p@ == gcm_dec(key@, iv@, ct@),
{
    let cipher = aes_gcm::Aes256Gcm::new_from_slice(key.as_slice()).unwrap();
    let mut buf = ct.clone();
    match cipher.decrypt_in_place_detached(
        aes_gcm::Nonce::from_slice(iv.as_slice()),
        aad.as_slice(),
        buf.as_mut_slice(),
        aes_gcm::Tag::from_slice(tag.as_slice()),
    ) {
        Ok(()) => Some(buf),
        Err(_) => None,
    }
}

/// A keyed AES-GCM box.
pub struct AesGcm {
    key: Vec<u8>,
}

impl AesGcm {
    /// The key this box was built with.
    pub closed spec fn key(self) -> Seq<u8> {
        self.key@
    }

    /// The box holds a key of a valid AES length.
    pub open spec fn wf(self) -> bool {
        valid_key_len(self.key().len() as int)
    }

    /// Builds a box for a 128-, 192- or 256-bit key; any other length is a
    /// size mismatch.
    pub fn new(key: &Vec<u8>) -> (r: Result<AesGcm, DiskError>)
        ensures
            r is Ok <==> valid_key_len(key@.len() as int),
            r matches Ok(g) ==> g.key() == key@ && g.wf(),
            r matches Err(e) ==> e == DiskError::SizeMismatch,
    {
        let n = key.len();
        if n != 16 && n != 24 && n != 32 {
            return Err(DiskError::SizeMismatch);
        }
        Ok(AesGcm { key: crate::bytesops::clone_bytes(key) })
    }

    /// Encrypts `plaintext` under this key with the given IV and associated
    /// data, returning the ciphertext and the 16-byte tag.
    pub fn encrypt_and_tag(&self, iv: &Vec<u8>, aad: &Vec<u8>, plaintext: &Vec<u8>) -> (r: (
        Vec<u8>,
        Vec<u8>,
    ))
        requires
            self.wf(),
            iv@.len() == 12,
            plaintext@.len() <= 0x10000000,
            aad@.len() <= 0x10000000,
        ensures
            r.0@.len() == plaintext@.len(),
            r.0@ == gcm_enc(self.key(), iv@, plaintext@),
            r.1@.len() == 16,
            r.1@ == gcm_tag(self.key(), iv@, aad@, r.0@),
            gcm_dec(self.key(), iv@, r.0@) == plaintext@,
    {
        if self.key.len() == 16 {
            gcm_seal_128(&self.key, iv, aad, plaintext)
        } else if self.key.len() == 24 {
            gcm_seal_192(&self.key, iv, aad, plaintext)
        } else {
            gcm_seal_256(&self.key, iv, aad, plaintext)
        }
    }

    /// Verifies the tag over the associated data and `ciphertext` and, only
    /// on a match, returns the decrypted plaintext; a mismatch is an
    /// authentication failure and yields no plaintext.
    pub fn auth_decrypt(&self, iv: &Vec<u8>, aad: &Vec<u8>, ciphertext: &Vec<u8>, tag: &Vec<u8>)
        -> (r: Result<Vec<u8>, DiskError>)
        requires
            self.wf(),
            iv@.len() == 12,
            ciphertext@.len() <= 0x10000000,
            aad@.len() <= 0x10000000,
            tag@.len() == 16,
        ensures
            r is Ok <==> tag@ == gcm_tag(self.key(), iv@, aad@, ciphertext@),
            r matches Ok(p) ==> p@.len() == ciphertext@.len() && p@ == gcm_dec(
                self.key(),
                iv@,
                ciphertext@,
            ),
            r matches Err(e) ==> e == DiskError::AuthenticationFailed,
    {
        let opened = if self.key.len() == 16 {
            gcm_open_128(&self.key, iv, aad, ciphertext, tag)
        } else if self.key.len() == 24 {
            gcm_open_192(&self.key, iv, aad, ciphertext, tag)
        } else {
            gcm_open_256(&self.key, iv, aad, ciphertext, tag)
        };
        match opened {
            Some(p) => Ok(p),
            None => Err(DiskError::AuthenticationFailed),
        }
    }
}

/// Authenticated round trip: for every key, IV, associated data and
/// plaintext, decrypting the ciphertext and tag that encryption produced,
/// with the same key, IV and associated data, succeeds and returns the
/// original plaintext.
pub fn aead_round_trip(gcm: &AesGcm, iv: &Vec<u8>, aad: &Vec<u8>, plaintext: &Vec<u8>) -> (r: Vec<
    u8,
>)
    requires
        gcm.wf(),
        iv@.len() == 12,
        plaintext@.len() <= 0x10000000,
        aad@.len() <= 0x10000000,
    ensures
        r@ == plaintext@,
{
    let (ct, tag) = gcm.encrypt_and_tag(iv, aad, plaintext);
    match gcm.auth_decrypt(iv, aad, &ct, &tag) {
        Ok(p) => p,
        Err(_) => {
            proof {
                assert(false);
            }
            Vec::new()
        },
    }
}

} // verus!
