use bindkey::errors::DiskError;
use bindkey::meta::{get_entry, set_entry, MetaEntry, MetaSector};

fn sample_sector() -> MetaSector {
    let mut m = MetaSector::default();
    set_entry(&mut m, 0, 1, &vec![0xaau8; 16]).unwrap();
    set_entry(&mut m, 7, 0x01020304, &(0u8..16).collect()).unwrap();
    set_entry(&mut m, 23, u32::MAX, &vec![0xffu8; 16]).unwrap();
    m.seq = 0x11223344;
    m
}

#[test]
fn default_sector_is_empty() {
    let m = MetaSector::default();
    assert_eq!(m.seq, 0);
    assert_eq!(m.entries.len(), 24);
    for e in m.entries.iter() {
        assert_eq!(e.counter, 0);
        assert_eq!(e.tag, vec![0u8; 16]);
        assert!(e.is_empty());
    }
}

#[test]
fn encode_lays_out_header_and_entries() {
    let m = sample_sector();
    let mut buf = vec![0u8; 512];
    m.encode(&mut buf).unwrap();
    // Magic "BKMD", version 1, G = 24.
    assert_eq!(&buf[0..4], b"BKMD");
    assert_eq!(buf[4], 1);
    assert_eq!(buf[5], 24);
    // Reserved bytes stay zero.
    assert_eq!(&buf[6..8], &[0, 0]);
    // Sequence number, little-endian.
    assert_eq!(&buf[8..12], &[0x44, 0x33, 0x22, 0x11]);
    assert_eq!(&buf[12..32], &[0u8; 20]);
    // Entry 0: counter 1, tag 0xaa * 16.
    assert_eq!(&buf[32..36], &[1, 0, 0, 0]);
    assert_eq!(&buf[36..52], &[0xaau8; 16]);
    // Entry 7 at offset 32 + 7*20 = 172: counter 0x01020304 LE.
    assert_eq!(&buf[172..176], &[0x04, 0x03, 0x02, 0x01]);
    let tag7: Vec<u8> = (0u8..16).collect();
    assert_eq!(&buf[176..192], tag7.as_slice());
    // Entry 23 at 32 + 23*20 = 492 runs to 512 exactly.
    assert_eq!(&buf[492..496], &[0xff; 4]);
    assert_eq!(&buf[496..512], &[0xffu8; 16]);
}

#[test]
fn encode_decode_round_trip() {
    let m = sample_sector();
    let mut buf = vec![0u8; 512];
    m.encode(&mut buf).unwrap();
    let back = MetaSector::decode(&buf).unwrap();
    assert_eq!(back.seq, m.seq);
    for i in 0..24 {
        assert_eq!(back.entries[i].counter, m.entries[i].counter);
        assert_eq!(back.entries[i].tag, m.entries[i].tag);
    }
}

#[test]
fn decode_reencode_round_trip_on_canonical_buffer() {
    let m = sample_sector();
    let mut buf = vec![0u8; 512];
    m.encode(&mut buf).unwrap();
    let back = MetaSector::decode(&buf).unwrap();
    let mut buf2 = vec![0u8; 512];
    back.encode(&mut buf2).unwrap();
    assert_eq!(buf, buf2);
}

#[test]
fn reserved_checksum_byte_is_tolerated_but_not_kept() {
    // A buffer whose reserved checksum field is nonzero still decodes, but
    // re-encoding zeroes the field: the round trip changes exactly that byte.
    let m = sample_sector();
    let mut buf = vec![0u8; 512];
    m.encode(&mut buf).unwrap();
    buf[12] = 0x5a;
    let back = MetaSector::decode(&buf).unwrap();
    let mut buf2 = vec![0u8; 512];
    back.encode(&mut buf2).unwrap();
    assert_ne!(buf, buf2);
    assert_eq!(buf2[12], 0);
    buf[12] = 0;
    assert_eq!(buf, buf2);
}

#[test]
fn decode_rejects_bad_headers() {
    let m = MetaSector::default();
    let mut good = vec![0u8; 512];
    m.encode(&mut good).unwrap();

    let mut bad = good.clone();
    bad[0] = b'X';
    assert_eq!(MetaSector::decode(&bad).err(), Some(DiskError::InvalidFormat));

    let mut bad = good.clone();
    bad[4] = 2;
    assert_eq!(MetaSector::decode(&bad).err(), Some(DiskError::InvalidFormat));

    let mut bad = good.clone();
    bad[5] = 23;
    assert_eq!(MetaSector::decode(&bad).err(), Some(DiskError::InvalidFormat));

    assert_eq!(MetaSector::decode(&vec![0u8; 511]).err(), Some(DiskError::SizeMismatch));
    assert_eq!(MetaSector::decode(&vec![0u8; 513]).err(), Some(DiskError::SizeMismatch));
}

#[test]
fn decode_or_default_falls_back_to_empty() {
    // An all-zero sector (fresh medium) decodes as the defaulted sector.
    let m = MetaSector::decode_or_default(&vec![0u8; 512]).unwrap();
    assert_eq!(m.seq, 0);
    for e in m.entries.iter() {
        assert!(e.is_empty());
    }
    // But an explicit decode surfaces the error.
    assert_eq!(MetaSector::decode(&vec![0u8; 512]).err(), Some(DiskError::InvalidFormat));
}

#[test]
fn entry_accessors_check_bounds() {
    let mut m = MetaSector::default();
    assert!(get_entry(&m, 0).is_ok());
    assert!(get_entry(&m, 23).is_ok());
    assert_eq!(get_entry(&m, 24).err(), Some(DiskError::InvalidArgument));
    assert_eq!(
        set_entry(&mut m, 24, 1, &vec![0u8; 16]).err(),
        Some(DiskError::InvalidArgument)
    );
    set_entry(&mut m, 3, 9, &vec![0x42u8; 16]).unwrap();
    let e = get_entry(&m, 3).unwrap();
    assert_eq!(e.counter, 9);
    assert_eq!(e.tag, vec![0x42u8; 16]);
}

#[test]
fn emptiness_needs_zero_counter_and_zero_tag() {
    let zero_tag = MetaEntry { counter: 0, tag: vec![0u8; 16] };
    assert!(zero_tag.is_empty());
    let counted = MetaEntry { counter: 1, tag: vec![0u8; 16] };
    assert!(!counted.is_empty());
    let mut tagged = MetaEntry { counter: 0, tag: vec![0u8; 16] };
    tagged.tag[15] = 1;
    assert!(!tagged.is_empty());
}
