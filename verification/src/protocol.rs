//! Framed request/response protocol spoken to the raw block medium.
//!
//! Every frame starts with a fixed 16-byte header; a request and its response
//! are matched by sequence number, and a response sets the high bit of the
//! command byte.

use vstd::prelude::*;
use vstd::bytes::{spec_u32_to_le_bytes, u32_to_le_bytes};

use crate::errors::DiskError;

verus! {

/// First magic byte of a frame header.
pub const MAGIC0: u8 = 0x42;

/// Second magic byte of a frame header.
pub const MAGIC1: u8 = 0x4B;

/// Protocol version carried in every header.
pub const VERSION: u8 = 1;

/// High bit of the command byte: set on responses.
pub const RESP_FLAG: u8 = 0x80;

/// Largest payload carried by one frame.
pub const MAX_PAYLOAD: usize = 512;

/// Commands understood by the block medium.
#[derive(Clone, Copy, Debug, PartialEq, Eq, Structural)]
pub enum Cmd {
    GetStatus,
    GetCapacity,
    Read,
    Write,
    Flush,
}

/// Wire code of each command.
pub open spec fn spec_cmd_code(c: Cmd) -> u8 {
    match c {
        Cmd::GetStatus => 1,
        Cmd::GetCapacity => 2,
        Cmd::Read => 3,
        Cmd::Write => 4,
        Cmd::Flush => 5,
    }
}

impl Cmd {
    /// Wire code of this command.
    pub fn code(self) -> (r: u8)
        ensures
            r == spec_cmd_code(self),
    {
        match self {
            Cmd::GetStatus => 1,
            Cmd::GetCapacity => 2,
            Cmd::Read => 3,
            Cmd::Write => 4,
            Cmd::Flush => 5,
        }
    }

    /// Parses a wire code; codes outside `1..=5` have no command.
    pub fn from_u8(v: u8) -> (r: Option<Cmd>)
        ensures
            r matches Some(c) ==> spec_cmd_code(c) == v,
            r is None <==> (v == 0 || v > 5),
    {
        match v {
            1 => Some(Cmd::GetStatus),
            2 => Some(Cmd::GetCapacity),
            3 => Some(Cmd::Read),
            4 => Some(Cmd::Write),
            5 => Some(Cmd::Flush),
            _ => None,
        }
    }
}

/// Fixed 16-byte frame header.
///
/// `reserved` carries the chunk index for multi-frame transfers; `arg0` and
/// `arg1` are generic parameters (start LBA and block count, or a status and
/// a length on responses).
#[derive(Clone, Copy, Debug)]
pub struct Header {
    pub magic0: u8,
    pub magic1: u8,
    pub version: u8,
    pub cmd: u8,
    pub seq: u16,
    pub reserved: u16,
    pub arg0: u32,
    pub arg1: u32,
}

impl Header {
    /// Builds a request header for `cmd` with the given sequence number and
    /// arguments.
    pub fn new(cmd: Cmd, seq: u16, arg0: u32, arg1: u32) -> (r: Header)
        ensures
            r.magic0 == MAGIC0,
            r.magic1 == MAGIC1,
            r.version == VERSION,
            r.cmd == spec_cmd_code(cmd),
            r.seq == seq,
            r.reserved == 0,
            r.arg0 == arg0,
            r.arg1 == arg1,
    {
        Header {
            magic0: MAGIC0,
            magic1: MAGIC1,
            version: VERSION,
            cmd: cmd.code(),
            seq,
            reserved: 0,
            arg0,
            arg1,
        }
    }

    /// A header is valid when it carries the magic bytes and the version this
    /// library speaks.
    pub fn is_valid(&self) -> (r: bool)
        ensures
            r <==> (self.magic0 == MAGIC0 && self.magic1 == MAGIC1 && self.version == VERSION),
    {
        self.magic0 == MAGIC0 && self.magic1 == MAGIC1 && self.version == VERSION
    }

    /// A response carries the response flag in its command byte.
    pub fn is_response(&self) -> (r: bool)
        ensures
            r <==> (self.cmd & 0x80u8) != 0,
    {
        (self.cmd & RESP_FLAG) != 0
    }

    /// Command byte with the response flag stripped.
    pub fn cmd_base(&self) -> (r: u8)
        ensures
            r == (self.cmd & 0x7fu8),
    {
        self.cmd & 0x7f
    }

    /// The command this header carries, if its base code is known.
    pub fn cmd_enum(&self) -> (r: Option<Cmd>)
        ensures
            r matches Some(c) ==> spec_cmd_code(c) == (self.cmd & 0x7fu8),
            r is None <==> ((self.cmd & 0x7fu8) == 0 || (self.cmd & 0x7fu8) > 5),
    {
        Cmd::from_u8(self.cmd_base())
    }

    /// Builds the response header answering `req`: same base command with the
    /// response flag set, same sequence number, and `status` in `arg0`.
    pub fn response_for(req: &Header, status: i32) -> (r: Header)
        ensures
            r.magic0 == MAGIC0,
            r.magic1 == MAGIC1,
            r.version == VERSION,
            r.cmd == ((req.cmd & 0x7fu8) | 0x80u8),
            r.seq == req.seq,
            r.reserved == 0,
            r.arg0 == status as u32,
            r.arg1 == 0,
    {
        Header {
            magic0: MAGIC0,
            magic1: MAGIC1,
            version: VERSION,
            cmd: req.cmd_base() | RESP_FLAG,
            seq: req.seq,
            reserved: 0,
            arg0: status as u32,
            arg1: 0,
        }
    }
}

/// Validates a response header against the request it should answer: the
/// magic bytes and version must match, the response flag must be set, and
/// the sequence number must echo the request's.
pub fn validate_resp(resp: &Header, seq: u16) -> (r: Result<(), DiskError>)
    ensures
        r is Ok <==> (resp.magic0 == MAGIC0 && resp.magic1 == MAGIC1 && resp.version == VERSION
            && (resp.cmd & 0x80u8) != 0 && resp.seq == seq),
        r matches Err(e) ==> e == DiskError::InvalidFormat,
{
    if !resp.is_valid() {
        return Err(DiskError::InvalidFormat);
    }
    if !resp.is_response() {
        return Err(DiskError::InvalidFormat);
    }
    if resp.seq != seq {
        return Err(DiskError::InvalidFormat);
    }
    Ok(())
}

/// Encodes a capacity response payload: block size then block count, both
/// little-endian.
pub fn encode_capacity(block_size: u32, block_count: u32) -> (r: Vec<u8>)
    ensures
        r@ == spec_u32_to_le_bytes(block_size) + spec_u32_to_le_bytes(block_count),
        r@.len() == 8,
{
    let mut out = u32_to_le_bytes(block_size);
    let mut tail = u32_to_le_bytes(block_count);
    out.append(&mut tail);
    proof {
        assert(out@ =~= spec_u32_to_le_bytes(block_size) + spec_u32_to_le_bytes(block_count));
    }
    out
}

} // verus!
