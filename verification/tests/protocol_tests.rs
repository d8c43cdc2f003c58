use bindkey::errors::DiskError;
use bindkey::protocol::{encode_capacity, validate_resp, Cmd, Header, MAGIC0, MAGIC1, VERSION};

#[test]
fn cmd_codes_round_trip() {
    for (code, cmd) in [
        (1u8, Cmd::GetStatus),
        (2, Cmd::GetCapacity),
        (3, Cmd::Read),
        (4, Cmd::Write),
        (5, Cmd::Flush),
    ] {
        assert_eq!(cmd.code(), code);
        assert_eq!(Cmd::from_u8(code), Some(cmd));
    }
    assert_eq!(Cmd::from_u8(0), None);
    assert_eq!(Cmd::from_u8(6), None);
    assert_eq!(Cmd::from_u8(0x83), None);
    assert_eq!(Cmd::from_u8(255), None);
}

#[test]
fn header_new_fills_fields() {
    let h = Header::new(Cmd::Read, 7, 100, 8);
    assert_eq!(h.magic0, MAGIC0);
    assert_eq!(h.magic1, MAGIC1);
    assert_eq!(h.version, VERSION);
    assert_eq!(h.cmd, 3);
    assert_eq!(h.seq, 7);
    assert_eq!(h.reserved, 0);
    assert_eq!(h.arg0, 100);
    assert_eq!(h.arg1, 8);
    assert!(h.is_valid());
    assert!(!h.is_response());
    assert_eq!(h.cmd_base(), 3);
    assert_eq!(h.cmd_enum(), Some(Cmd::Read));
}

#[test]
fn response_for_echoes_request() {
    let req = Header::new(Cmd::Write, 42, 10, 2);
    let resp = Header::response_for(&req, 0);
    assert!(resp.is_valid());
    assert!(resp.is_response());
    assert_eq!(resp.cmd, 4 | 0x80);
    assert_eq!(resp.cmd_base(), 4);
    assert_eq!(resp.cmd_enum(), Some(Cmd::Write));
    assert_eq!(resp.seq, 42);
    assert_eq!(resp.arg0, 0);
    assert_eq!(resp.arg1, 0);

    let failed = Header::response_for(&req, -1);
    assert_eq!(failed.arg0, u32::MAX);
}

#[test]
fn validate_resp_accepts_matching_response() {
    let req = Header::new(Cmd::GetStatus, 9, 0, 0);
    let resp = Header::response_for(&req, 0);
    assert!(validate_resp(&resp, 9).is_ok());
}

#[test]
fn validate_resp_rejects_bad_frames() {
    let req = Header::new(Cmd::GetStatus, 9, 0, 0);
    let good = Header::response_for(&req, 0);

    let mut bad_magic = good;
    bad_magic.magic0 = 0x00;
    assert_eq!(validate_resp(&bad_magic, 9), Err(DiskError::InvalidFormat));

    let mut bad_version = good;
    bad_version.version = 2;
    assert_eq!(validate_resp(&bad_version, 9), Err(DiskError::InvalidFormat));

    // A request (no response flag) is not a response.
    assert_eq!(validate_resp(&req, 9), Err(DiskError::InvalidFormat));

    // Sequence mismatch.
    assert_eq!(validate_resp(&good, 10), Err(DiskError::InvalidFormat));
}

#[test]
fn capacity_payload_is_little_endian() {
    let p = encode_capacity(512, 4096);
    assert_eq!(p, vec![0x00, 0x02, 0x00, 0x00, 0x00, 0x10, 0x00, 0x00]);
    let p = encode_capacity(0x0403_0201, 0x0807_0605);
    assert_eq!(p, vec![0x01, 0x02, 0x03, 0x04, 0x05, 0x06, 0x07, 0x08]);
}
