use bindkey::hex::{bytes_to_hex_upper, hex_to_bytes_32, hex_val};

#[test]
fn hex_val_decodes_all_three_ranges() {
    assert_eq!(hex_val(b'0'), Some(0));
    assert_eq!(hex_val(b'9'), Some(9));
    assert_eq!(hex_val(b'a'), Some(10));
    assert_eq!(hex_val(b'f'), Some(15));
    assert_eq!(hex_val(b'A'), Some(10));
    assert_eq!(hex_val(b'F'), Some(15));
    assert_eq!(hex_val(b'g'), None);
    assert_eq!(hex_val(b'G'), None);
    assert_eq!(hex_val(b' '), None);
    assert_eq!(hex_val(b'/'), None);
}

#[test]
fn bytes_encode_as_upper_hex() {
    let src = vec![0x00u8, 0x1f, 0xa5, 0xff];
    let mut dst = vec![0u8; 16];
    let n = bytes_to_hex_upper(&src, &mut dst);
    assert_eq!(n, 8);
    assert_eq!(&dst[..8], b"001FA5FF");
    // Bytes past the written prefix are untouched.
    assert_eq!(&dst[8..], &[0u8; 8]);
}

#[test]
fn challenge_hex_round_trips() {
    let bytes: Vec<u8> = (0u8..32).collect();
    let mut hexbuf = vec![0u8; 64];
    let n = bytes_to_hex_upper(&bytes, &mut hexbuf);
    assert_eq!(n, 64);
    let back = hex_to_bytes_32(&hexbuf).expect("valid hex must parse");
    assert_eq!(back, bytes);
}

#[test]
fn challenge_hex_rejects_bad_input() {
    // Wrong length.
    assert!(hex_to_bytes_32(&vec![b'0'; 63]).is_none());
    assert!(hex_to_bytes_32(&vec![b'0'; 65]).is_none());
    assert!(hex_to_bytes_32(&Vec::new()).is_none());
    // Right length, one bad character.
    let mut s = vec![b'0'; 64];
    s[10] = b'g';
    assert!(hex_to_bytes_32(&s).is_none());
}

#[test]
fn challenge_hex_accepts_mixed_case() {
    let mut s = Vec::new();
    s.extend_from_slice(b"00112233445566778899aabbccddeeff");
    s.extend_from_slice(b"00112233445566778899AABBCCDDEEFF");
    let v = hex_to_bytes_32(&s).expect("mixed case parses");
    assert_eq!(&v[..8], &[0x00, 0x11, 0x22, 0x33, 0x44, 0x55, 0x66, 0x77]);
    assert_eq!(&v[16..24], &[0x00, 0x11, 0x22, 0x33, 0x44, 0x55, 0x66, 0x77]);
}
