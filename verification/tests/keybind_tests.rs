use bindkey::errors::DiskError;
use bindkey::keybind::{derive_volume_key_hmac, key_message};
use hmac::Mac;

fn mock_serial() -> Vec<u8> {
    (1u8..=9).collect()
}

fn root_key() -> Vec<u8> {
    vec![0x7du8; 32]
}

#[test]
fn message_layout_is_serial_volume_label() {
    let serial = mock_serial();
    let vid = b"VOLID-EXAMPLE-00".to_vec();
    let msg = key_message(&serial, &vid);
    assert_eq!(msg.len(), 32);
    assert_eq!(&msg[0..9], serial.as_slice());
    assert_eq!(&msg[9..25], vid.as_slice());
    assert_eq!(&msg[25..32], b"bindkey");
}

#[test]
fn key_binding_stability() {
    // With a fixed device serial and a deterministic MAC, the same volume
    // identifier always derives the same 32-byte key, and a different
    // identifier derives a different one.
    let serial = mock_serial();
    let vid0 = b"VOLID-EXAMPLE-00".to_vec();
    let vid1 = b"VOLID-EXAMPLE-01".to_vec();

    let k0a = derive_volume_key_hmac(&root_key(), &serial, &vid0).unwrap();
    let k0b = derive_volume_key_hmac(&root_key(), &serial, &vid0).unwrap();
    let k1 = derive_volume_key_hmac(&root_key(), &serial, &vid1).unwrap();

    assert_eq!(k0a.len(), 32);
    assert_eq!(k0a, k0b);
    assert_ne!(k0a, k1);
}

#[test]
fn keys_are_bound_to_the_device_serial() {
    let vid = b"VOLID-EXAMPLE-00".to_vec();
    let other_serial: Vec<u8> = (11u8..=19).collect();
    let k_dev1 = derive_volume_key_hmac(&root_key(), &mock_serial(), &vid).unwrap();
    let k_dev2 = derive_volume_key_hmac(&root_key(), &other_serial, &vid).unwrap();
    assert_ne!(k_dev1, k_dev2);
}

#[test]
fn keys_are_bound_to_the_root_secret() {
    let vid = b"VOLID-EXAMPLE-00".to_vec();
    let k1 = derive_volume_key_hmac(&vec![0x01u8; 32], &mock_serial(), &vid).unwrap();
    let k2 = derive_volume_key_hmac(&vec![0x02u8; 32], &mock_serial(), &vid).unwrap();
    assert_ne!(k1, k2);
}

#[test]
fn input_widths_are_checked() {
    let vid = b"VOLID-EXAMPLE-00".to_vec();
    assert_eq!(
        derive_volume_key_hmac(&root_key(), &vec![1u8; 8], &vid).err(),
        Some(DiskError::InvalidArgument)
    );
    assert_eq!(
        derive_volume_key_hmac(&root_key(), &mock_serial(), &vec![0u8; 15]).err(),
        Some(DiskError::InvalidArgument)
    );
}

#[test]
fn derivation_matches_precomputed_vector() {
    // Expected value computed with an independent HMAC-SHA-256
    // implementation over serial 0x01..0x09, volume id "VOLID-EXAMPLE-00"
    // and the "bindkey" label, under a root key of 32 bytes of 0x7d.
    let expected: Vec<u8> = vec![
        0xd4, 0x2d, 0x28, 0xfd, 0x30, 0x86, 0xa5, 0xd8, 0x2d, 0xa3, 0xff, 0x81, 0x42, 0xf1, 0xda,
        0xb2, 0x00, 0xb0, 0xfd, 0xe5, 0x12, 0xb8, 0xcb, 0x44, 0x8d, 0x74, 0x5c, 0x70, 0x41, 0x32,
        0x02, 0x17,
    ];
    let vid = b"VOLID-EXAMPLE-00".to_vec();
    let got = derive_volume_key_hmac(&root_key(), &mock_serial(), &vid).unwrap();
    assert_eq!(got, expected);
}

#[test]
fn derivation_matches_independent_hmac() {
    // Cross-check the derivation against an independent HMAC-SHA-256
    // computation over the same message.
    let serial = mock_serial();
    let vid = b"VOLID-EXAMPLE-00".to_vec();
    let msg = key_message(&serial, &vid);

    let mut mac = hmac::Hmac::<sha2::Sha256>::new_from_slice(root_key().as_slice()).unwrap();
    mac.update(msg.as_slice());
    let expected = mac.finalize().into_bytes().to_vec();

    let got = derive_volume_key_hmac(&root_key(), &serial, &vid).unwrap();
    assert_eq!(got, expected);
}
