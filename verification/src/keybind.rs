//! Key binding: derives the 256-bit volume key from a root secret, bound to
//! the device serial number and a per-volume identifier.
//!
//! The derivation message is `serial (9 bytes) || volume_id (16 bytes) ||
//! "bindkey" (7 bytes)`; the volume key is the HMAC-SHA-256 of that message
//! under the root secret. The derivation is deterministic: a fixed (root
//! secret, serial, volume id) triple always yields the same key, and two
//! different volume identifiers (or serials) never share a message.

use vstd::prelude::*;

use hmac::Mac;

use crate::bytesops::clone_bytes;
use crate::errors::DiskError;

verus! {

/// HMAC-SHA-256 of `msg` under `key`.
pub uninterp spec fn hmac_sha256_of(key: Seq<u8>, msg: Seq<u8>) -> Seq<u8>;

/// Relies on `hmac::Hmac::<sha2::Sha256>`: the MAC is a function of the key
/// and the message alone, 32 bytes long, and accepts keys of any length.
#[verifier::external_body]
fn hmac_sha256(key: &Vec<u8>, msg: &Vec<u8>) -> (r: Vec<u8>)
    ensures
        r@ == hmac_sha256_of(key@, msg@),
        r@.len() == 32,
{
    let mut mac = <hmac::Hmac<sha2::Sha256> as Mac>::new_from_slice(key.as_slice()).unwrap();
    mac.update(msg.as_slice());
    mac.finalize().into_bytes().to_vec()
}

/// The ASCII bytes of the domain label `"bindkey"`.
pub open spec fn bind_label() -> Seq<u8> {
    seq![0x62u8, 0x69u8, 0x6eu8, 0x64u8, 0x6bu8, 0x65u8, 0x79u8]
}

/// The 32-byte derivation message for a serial number and a volume
/// identifier.
pub open spec fn spec_key_message(serial: Seq<u8>, volume_id: Seq<u8>) -> Seq<u8> {
    serial + volume_id + bind_label()
}

/// Builds the derivation message: serial, volume identifier, domain label.
pub fn key_message(serial: &Vec<u8>, volume_id: &Vec<u8>) -> (r: Vec<u8>)
    requires
        serial@.len() == 9,
        volume_id@.len() == 16,
    ensures
        r@ == spec_key_message(serial@, volume_id@),
        r@.len() == 32,
{
    let mut msg = clone_bytes(serial);
    let mut vid = clone_bytes(volume_id);
    msg.append(&mut vid);
    msg.push(0x62);
    msg.push(0x69);
    msg.push(0x6e);
    msg.push(0x64);
    msg.push(0x6b);
    msg.push(0x65);
    msg.push(0x79);
    proof {
        assert(msg@ =~= spec_key_message(serial@, volume_id@));
    }
    msg
}

/// Derives the volume key: HMAC-SHA-256 of the derivation message under the
/// root secret. Deterministic in all three inputs; a 9-byte serial and a
/// 16-byte volume identifier are required, as the secure element and the
/// on-medium format fix those widths.
pub fn derive_volume_key_hmac(root_key: &Vec<u8>, serial: &Vec<u8>, volume_id: &Vec<u8>) -> (r:
    Result<Vec<u8>, DiskError>)
    ensures
        r is Ok <==> (serial@.len() == 9 && volume_id@.len() == 16),
        r matches Ok(k) ==> k@ == hmac_sha256_of(
            root_key@,
            spec_key_message(serial@, volume_id@),
        ) && k@.len() == 32,
        r matches Err(e) ==> e == DiskError::InvalidArgument,
{
    if serial.len() != 9 || volume_id.len() != 16 {
        return Err(DiskError::InvalidArgument);
    }
    let msg = key_message(serial, volume_id);
    Ok(hmac_sha256(root_key, &msg))
}

/// Two derivations that differ in the volume identifier, or in the serial,
/// never share a derivation message; with equal lengths, differing inputs
/// give differing messages.
pub proof fn lemma_key_message_injective(s1: Seq<u8>, v1: Seq<u8>, s2: Seq<u8>, v2: Seq<u8>)
    requires
        s1.len() == 9,
        s2.len() == 9,
        v1.len() == 16,
        v2.len() == 16,
        spec_key_message(s1, v1) == spec_key_message(s2, v2),
    ensures
        s1 == s2,
        v1 == v2,
{
    let m = spec_key_message(s1, v1);
    assert(s1 =~= m.subrange(0, 9));
    assert(v1 =~= m.subrange(9, 25));
    assert(s2 =~= m.subrange(0, 9));
    assert(v2 =~= m.subrange(9, 25));
}

} // verus!
