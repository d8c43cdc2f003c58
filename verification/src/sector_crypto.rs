//! Per-sector AEAD discipline: IV and AAD construction, sector seal and open.
//!
//! The IV binds the logical address and the per-sector write counter (plus a
//! fixed domain constant), so no (key, IV) pair is ever reused as long as
//! counters are strictly monotonic per sector. The AAD repeats the pair and
//! binds tag verification to the addressed sector even if IV construction is
//! ever refactored.

use vstd::prelude::*;
use vstd::bytes::{
    lemma_auto_spec_u32_to_from_le_bytes, spec_u32_from_le_bytes, spec_u32_to_le_bytes,
    u32_to_le_bytes,
};

use crate::aead::{gcm_dec, gcm_enc, gcm_tag, AesGcm};
use crate::errors::DiskError;

verus! {

/// IV length in bytes.
pub const IV_LEN: usize = 12;

/// The fixed IV domain constant, `"BK\0\x01"`.
pub open spec fn iv_domain() -> Seq<u8> {
    seq![0x42u8, 0x4bu8, 0x00u8, 0x01u8]
}

/// The 12-byte IV of a sector operation: logical address, counter, domain
/// constant, all little-endian.
pub open spec fn spec_iv(lba: u32, counter: u32) -> Seq<u8> {
    spec_u32_to_le_bytes(lba) + spec_u32_to_le_bytes(counter) + iv_domain()
}

/// The 8-byte AAD of a sector operation: logical address then counter.
pub open spec fn spec_aad(lba: u32, counter: u32) -> Seq<u8> {
    spec_u32_to_le_bytes(lba) + spec_u32_to_le_bytes(counter)
}

/// Builds the IV for a sector operation.
pub fn make_iv(lba_logical: u32, counter: u32) -> (r: Vec<u8>)
    ensures
        r@ == spec_iv(lba_logical, counter),
        r@.len() == 12,
{
    let mut iv = u32_to_le_bytes(lba_logical);
    let mut c = u32_to_le_bytes(counter);
    iv.append(&mut c);
    iv.push(0x42);
    iv.push(0x4b);
    iv.push(0x00);
    iv.push(0x01);
    proof {
        assert(iv@ =~= spec_iv(lba_logical, counter));
    }
    iv
}

/// Builds the AAD for a sector operation.
pub fn make_aad(lba_logical: u32, counter: u32) -> (r: Vec<u8>)
    ensures
        r@ == spec_aad(lba_logical, counter),
        r@.len() == 8,
{
    let mut aad = u32_to_le_bytes(lba_logical);
    let mut c = u32_to_le_bytes(counter);
    aad.append(&mut c);
    proof {
        assert(aad@ =~= spec_aad(lba_logical, counter));
    }
    aad
}

/// The IV is an injection of (logical address, counter): two sector
/// operations share an IV only if they address the same sector with the same
/// counter.
pub proof fn lemma_iv_injective(l1: u32, c1: u32, l2: u32, c2: u32)
    requires
        spec_iv(l1, c1) == spec_iv(l2, c2),
    ensures
        l1 == l2,
        c1 == c2,
{
    lemma_auto_spec_u32_to_from_le_bytes();
    let s1 = spec_iv(l1, c1);
    let s2 = spec_iv(l2, c2);
    assert(s1.subrange(0, 4) =~= spec_u32_to_le_bytes(l1));
    assert(s1.subrange(4, 8) =~= spec_u32_to_le_bytes(c1));
    assert(s2.subrange(0, 4) =~= spec_u32_to_le_bytes(l2));
    assert(s2.subrange(4, 8) =~= spec_u32_to_le_bytes(c2));
    assert(l1 == spec_u32_from_le_bytes(s1.subrange(0, 4)));
    assert(c1 == spec_u32_from_le_bytes(s1.subrange(4, 8)));
}

/// Seals one sector: encrypts 512 bytes of plaintext under the IV and AAD
/// derived from (logical address, counter). A zero counter is reserved for
/// "never written" and is refused.
pub fn encrypt_sector(
    gcm: &AesGcm,
    lba_logical: u32,
    counter: u32,
    plaintext: &Vec<u8>,
) -> (r: Result<(Vec<u8>, Vec<u8>), DiskError>)
    requires
        gcm.wf(),
    ensures
        plaintext@.len() != 512 ==> (r matches Err(e) && e == DiskError::SizeMismatch),
        plaintext@.len() == 512 && counter == 0 ==> (r matches Err(e) && e
            == DiskError::InvalidArgument),
        plaintext@.len() == 512 && counter != 0 ==> (r matches Ok(p) && {
            &&& p.0@ == gcm_enc(gcm.key(), spec_iv(lba_logical, counter), plaintext@)
            &&& p.0@.len() == 512
            &&& p.1@ == gcm_tag(
                gcm.key(),
                spec_iv(lba_logical, counter),
                spec_aad(lba_logical, counter),
                p.0@,
            )
            &&& p.1@.len() == 16
            &&& gcm_dec(gcm.key(), spec_iv(lba_logical, counter), p.0@) == plaintext@
        }),
{
    if plaintext.len() != crate::layout::SECTOR_SIZE {
        return Err(DiskError::SizeMismatch);
    }
    if counter == 0 {
        return Err(DiskError::InvalidArgument);
    }
    let iv = make_iv(lba_logical, counter);
    let aad = make_aad(lba_logical, counter);
    Ok(gcm.encrypt_and_tag(&iv, &aad, plaintext))
}

/// Opens one sector: verifies the tag bound to (logical address, counter)
/// and, only on a match, returns the 512 decrypted bytes. A zero counter is
/// refused; a tag mismatch is an authentication failure.
pub fn decrypt_sector(
    gcm: &AesGcm,
    lba_logical: u32,
    counter: u32,
    ciphertext: &Vec<u8>,
    tag: &Vec<u8>,
) -> (r: Result<Vec<u8>, DiskError>)
    requires
        gcm.wf(),
        tag@.len() == 16,
    ensures
        ciphertext@.len() != 512 ==> (r matches Err(e) && e == DiskError::SizeMismatch),
        ciphertext@.len() == 512 && counter == 0 ==> (r matches Err(e) && e
            == DiskError::InvalidArgument),
        ciphertext@.len() == 512 && counter != 0 ==> {
            &&& r is Ok <==> tag@ == gcm_tag(
                gcm.key(),
                spec_iv(lba_logical, counter),
                spec_aad(lba_logical, counter),
                ciphertext@,
            )
            &&& (r matches Ok(p) ==> p@.len() == 512 && p@ == gcm_dec(
                gcm.key(),
                spec_iv(lba_logical, counter),
                ciphertext@,
            ))
            &&& (r matches Err(e) ==> e == DiskError::AuthenticationFailed)
        },
{
    if ciphertext.len() != crate::layout::SECTOR_SIZE {
        return Err(DiskError::SizeMismatch);
    }
    if counter == 0 {
        return Err(DiskError::InvalidArgument);
    }
    let iv = make_iv(lba_logical, counter);
    let aad = make_aad(lba_logical, counter);
    gcm.auth_decrypt(&iv, &aad, ciphertext, tag)
}

} // verus!
