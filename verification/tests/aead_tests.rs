use bindkey::aead::{aead_round_trip, AesGcm};
use bindkey::errors::DiskError;
use bindkey::sector_crypto::{decrypt_sector, encrypt_sector, make_aad, make_iv};

#[test]
fn key_lengths_are_checked() {
    assert!(AesGcm::new(&vec![0x11; 16]).is_ok());
    assert!(AesGcm::new(&vec![0x11; 24]).is_ok());
    assert!(AesGcm::new(&vec![0x11; 32]).is_ok());
    assert_eq!(AesGcm::new(&vec![0x11; 0]).err(), Some(DiskError::SizeMismatch));
    assert_eq!(AesGcm::new(&vec![0x11; 15]).err(), Some(DiskError::SizeMismatch));
    assert_eq!(AesGcm::new(&vec![0x11; 33]).err(), Some(DiskError::SizeMismatch));
}

#[test]
fn round_trip_for_every_key_size() {
    let iv = vec![0x22u8; 12];
    let aad = b"hdr-aad!".to_vec();
    let plaintext: Vec<u8> = (0u8..64).collect();
    for key_len in [16usize, 24, 32] {
        let gcm = AesGcm::new(&vec![0x11u8; key_len]).unwrap();
        let (ct, tag) = gcm.encrypt_and_tag(&iv, &aad, &plaintext);
        assert_eq!(ct.len(), 64);
        assert_eq!(tag.len(), 16);
        assert_ne!(ct, plaintext);
        let back = gcm.auth_decrypt(&iv, &aad, &ct, &tag).unwrap();
        assert_eq!(back, plaintext);
        // The library's own round-trip law, exercised on concrete values.
        assert_eq!(aead_round_trip(&gcm, &iv, &aad, &plaintext), plaintext);
    }
}

#[test]
fn every_single_bit_flip_is_detected() {
    let gcm = AesGcm::new(&vec![0x11u8; 32]).unwrap();
    let iv = vec![0x22u8; 12];
    let aad = b"hdr-aad!".to_vec();
    let plaintext: Vec<u8> = (0u8..64).collect();
    let (ct, tag) = gcm.encrypt_and_tag(&iv, &aad, &plaintext);

    // Ciphertext bits.
    for byte in 0..ct.len() {
        for bit in 0..8 {
            let mut bad = ct.clone();
            bad[byte] ^= 1 << bit;
            assert_eq!(
                gcm.auth_decrypt(&iv, &aad, &bad, &tag).err(),
                Some(DiskError::AuthenticationFailed)
            );
        }
    }
    // Tag bits.
    for byte in 0..tag.len() {
        for bit in 0..8 {
            let mut bad = tag.clone();
            bad[byte] ^= 1 << bit;
            assert_eq!(
                gcm.auth_decrypt(&iv, &aad, &ct, &bad).err(),
                Some(DiskError::AuthenticationFailed)
            );
        }
    }
    // AAD bits.
    for byte in 0..aad.len() {
        for bit in 0..8 {
            let mut bad = aad.clone();
            bad[byte] ^= 1 << bit;
            assert_eq!(
                gcm.auth_decrypt(&iv, &bad, &ct, &tag).err(),
                Some(DiskError::AuthenticationFailed)
            );
        }
    }
    // IV bits.
    for byte in 0..iv.len() {
        for bit in 0..8 {
            let mut bad = iv.clone();
            bad[byte] ^= 1 << bit;
            assert_eq!(
                gcm.auth_decrypt(&bad, &aad, &ct, &tag).err(),
                Some(DiskError::AuthenticationFailed)
            );
        }
    }
}

#[test]
fn iv_binds_address_counter_and_domain() {
    let iv = make_iv(0x04030201, 0x08070605);
    assert_eq!(iv, vec![0x01, 0x02, 0x03, 0x04, 0x05, 0x06, 0x07, 0x08, 0x42, 0x4b, 0x00, 0x01]);
    let aad = make_aad(0x04030201, 0x08070605);
    assert_eq!(aad, vec![0x01, 0x02, 0x03, 0x04, 0x05, 0x06, 0x07, 0x08]);
    // Distinct (address, counter) pairs give distinct IVs.
    assert_ne!(make_iv(1, 2), make_iv(2, 1));
    assert_ne!(make_iv(0, 1), make_iv(0, 2));
    assert_ne!(make_iv(5, 7), make_iv(6, 7));
}

#[test]
fn sector_seal_checks_sizes_and_counter() {
    let gcm = AesGcm::new(&vec![0x11u8; 32]).unwrap();
    let sector = vec![0x5au8; 512];
    assert_eq!(
        encrypt_sector(&gcm, 0, 1, &vec![0u8; 511]).err(),
        Some(DiskError::SizeMismatch)
    );
    assert_eq!(
        encrypt_sector(&gcm, 0, 0, &sector).err(),
        Some(DiskError::InvalidArgument)
    );
    let (ct, tag) = encrypt_sector(&gcm, 3, 1, &sector).unwrap();
    assert_eq!(ct.len(), 512);
    assert_eq!(tag.len(), 16);

    assert_eq!(
        decrypt_sector(&gcm, 3, 1, &vec![0u8; 511], &tag).err(),
        Some(DiskError::SizeMismatch)
    );
    assert_eq!(
        decrypt_sector(&gcm, 3, 0, &ct, &tag).err(),
        Some(DiskError::InvalidArgument)
    );
    let back = decrypt_sector(&gcm, 3, 1, &ct, &tag).unwrap();
    assert_eq!(back, sector);
}

#[test]
fn sector_open_binds_address_and_counter() {
    let gcm = AesGcm::new(&vec![0x11u8; 32]).unwrap();
    let sector: Vec<u8> = (0..512u32).map(|i| (i % 256) as u8).collect();
    let (ct, tag) = encrypt_sector(&gcm, 9, 4, &sector).unwrap();
    // Wrong logical address or wrong counter must not verify.
    assert_eq!(
        decrypt_sector(&gcm, 10, 4, &ct, &tag).err(),
        Some(DiskError::AuthenticationFailed)
    );
    assert_eq!(
        decrypt_sector(&gcm, 9, 5, &ct, &tag).err(),
        Some(DiskError::AuthenticationFailed)
    );
    // The right pair does.
    assert_eq!(decrypt_sector(&gcm, 9, 4, &ct, &tag).unwrap(), sector);
}
