//! Hexadecimal encoding and decoding used by the text command channel.

use vstd::prelude::*;

verus! {

/// Upper-case hex digit of a nibble `n < 16`.
pub open spec fn spec_hex_digit_upper(n: u8) -> u8 {
    if n < 10 {
        (0x30 + n) as u8
    } else {
        (0x41 + (n - 10)) as u8
    }
}

/// Value of one hex character, if it is one.
pub open spec fn spec_hex_val(c: u8) -> Option<u8> {
    if 0x30 <= c <= 0x39 {
        Some((c - 0x30) as u8)
    } else if 0x61 <= c <= 0x66 {
        Some((c - 0x61 + 10) as u8)
    } else if 0x41 <= c <= 0x46 {
        Some((c - 0x41 + 10) as u8)
    } else {
        None
    }
}

/// Parses one hex character: digits, then lower-case, then upper-case.
pub fn hex_val(c: u8) -> (r: Option<u8>)
    ensures
        r == spec_hex_val(c),
{
    if 0x30 <= c && c <= 0x39 {
        Some(c - 0x30)
    } else if 0x61 <= c && c <= 0x66 {
        Some(c - 0x61 + 10)
    } else if 0x41 <= c && c <= 0x46 {
        Some(c - 0x41 + 10)
    } else {
        None
    }
}

/// Writes the upper-case hex expansion of `src` over the front of `dst` and
/// returns how many bytes it wrote.
pub fn bytes_to_hex_upper(src: &Vec<u8>, dst: &mut Vec<u8>) -> (r: usize)
    requires
        src@.len() <= 0x7fffffff,
        old(dst)@.len() >= 2 * src@.len(),
    ensures
        r == 2 * src@.len(),
        final(dst)@.len() == old(dst)@.len(),
        forall|i: int|
            0 <= i < src@.len() ==> final(dst)@[2 * i] == spec_hex_digit_upper(
                (src@[i] >> 4) as u8,
            ),
        forall|i: int|
            0 <= i < src@.len() ==> final(dst)@[2 * i + 1] == spec_hex_digit_upper(
                (src@[i] & 0x0f) as u8,
            ),
        forall|i: int| 2 * src@.len() <= i < old(dst)@.len() ==> final(dst)@[i] == old(dst)@[i],
{
    let mut j: usize = 0;
    let n = src.len();
    while j < n
        invariant
            n == src@.len(),
            n <= 0x7fffffff,
            0 <= j <= n,
            dst@.len() == old(dst)@.len() >= 2 * n,
            forall|i: int| 0 <= i < j ==> dst@[2 * i] == spec_hex_digit_upper((src@[i] >> 4) as u8),
            forall|i: int|
                0 <= i < j ==> dst@[2 * i + 1] == spec_hex_digit_upper((src@[i] & 0x0f) as u8),
            forall|i: int| 2 * j <= i < dst@.len() ==> dst@[i] == old(dst)@[i],
        decreases n - j,
    {
        let b = src[j];
        let hi = b >> 4;
        let lo = b & 0x0f;
        proof {
            assert(hi < 16 && lo < 16) by (bit_vector)
                requires
                    hi == b >> 4,
                    lo == b & 0x0f,
            ;
        }
        let hi_digit = if hi < 10 {
            0x30 + hi
        } else {
            0x41 + (hi - 10)
        };
        let lo_digit = if lo < 10 {
            0x30 + lo
        } else {
            0x41 + (lo - 10)
        };
        dst.set(2 * j, hi_digit);
        dst.set(2 * j + 1, lo_digit);
        j = j + 1;
    }
    2 * n
}

/// Every byte of `s` parses as a hex character.
pub open spec fn all_hex(s: Seq<u8>) -> bool {
    forall|i: int| 0 <= i < s.len() ==> spec_hex_val(s[i]) is Some
}

/// Byte decoded from the hex character pair at position `i` of `s`.
pub open spec fn spec_hex_pair(s: Seq<u8>, i: int) -> u8 {
    (spec_hex_val(s[2 * i])->Some_0 * 16 + spec_hex_val(s[2 * i + 1])->Some_0) as u8
}

/// Decodes exactly 64 hex characters into 32 bytes; anything else is refused.
pub fn hex_to_bytes_32(s: &Vec<u8>) -> (r: Option<Vec<u8>>)
    ensures
        r is Some <==> (s@.len() == 64 && all_hex(s@)),
        r matches Some(v) ==> {
            &&& v@.len() == 32
            &&& forall|i: int| 0 <= i < 32 ==> v@[i] == spec_hex_pair(s@, i)
        },
{
    if s.len() != 64 {
        return None;
    }
    let mut out: Vec<u8> = Vec::new();
    let mut i: usize = 0;
    while i < 32
        invariant
            s@.len() == 64,
            0 <= i <= 32,
            out@.len() == i,
            forall|k: int| 0 <= k < i ==> #[trigger] spec_hex_val(s@[2 * k]) is Some,
            forall|k: int| 0 <= k < i ==> #[trigger] spec_hex_val(s@[2 * k + 1]) is Some,
            forall|k: int| 0 <= k < i ==> out@[k] == spec_hex_pair(s@, k),
        decreases 32 - i,
    {
        let hi = match hex_val(s[2 * i]) {
            Some(v) => v,
            None => {
                return None;
            },
        };
        let lo = match hex_val(s[2 * i + 1]) {
            Some(v) => v,
            None => {
                return None;
            },
        };
        out.push(hi * 16 + lo);
        i = i + 1;
    }
    proof {
        assert(all_hex(s@)) by {
            assert forall|i: int| 0 <= i < 64 implies spec_hex_val(s@[i]) is Some by {
                if i % 2 == 0 {
                    assert(spec_hex_val(s@[2 * (i / 2)]) is Some);
                } else {
                    assert(spec_hex_val(s@[2 * (i / 2) + 1]) is Some);
                }
            }
        }
    }
    Some(out)
}

} // verus!
