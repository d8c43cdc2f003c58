//! Small byte-buffer helpers shared across the crate.

use vstd::prelude::*;
use vstd::slice::slice_to_vec;

verus! {

/// A sequence of `n` zero bytes.
pub open spec fn zeros(n: int) -> Seq<u8> {
    Seq::new(n as nat, |i: int| 0u8)
}

/// Builds a vector of `n` zero bytes.
pub fn zero_bytes(n: usize) -> (r: Vec<u8>)
    ensures
        r@ == zeros(n as int),
{
    let mut out: Vec<u8> = Vec::new();
    let mut i: usize = 0;
    while i < n
        invariant
            0 <= i <= n,
            out@ =~= zeros(i as int),
        decreases n - i,
    {
        out.push(0);
        i = i + 1;
    }
    proof {
        assert(out@ =~= zeros(n as int));
    }
    out
}

/// Copies a byte vector.
pub fn clone_bytes(v: &Vec<u8>) -> (r: Vec<u8>)
    ensures
        r@ == v@,
{
    slice_to_vec(v.as_slice())
}

/// Copies `src` from position `i` up to `j` into a fresh vector.
pub fn sub_bytes(src: &Vec<u8>, i: usize, j: usize) -> (r: Vec<u8>)
    requires
        0 <= i <= j <= src@.len(),
    ensures
        r@ == src@.subrange(i as int, j as int),
{
    let s = vstd::slice::slice_subrange(src.as_slice(), i, j);
    slice_to_vec(s)
}

/// Overwrites `dst[off .. off + src.len()]` with `src`, leaving the rest of
/// `dst` unchanged.
pub fn copy_into(dst: &mut Vec<u8>, off: usize, src: &Vec<u8>)
    requires
        off + src@.len() <= old(dst)@.len(),
    ensures
        final(dst)@.len() == old(dst)@.len(),
        final(dst)@ == old(dst)@.subrange(0, off as int) + src@ + old(dst)@.subrange(
            off as int + src@.len(),
            old(dst)@.len() as int,
        ),
{
    let n = src.len();
    let dlen = dst.len();
    let mut k: usize = 0;
    while k < n
        invariant
            n == src@.len(),
            dlen == dst@.len(),
            off + n <= dlen,
            dst@.len() == old(dst)@.len(),
            0 <= k <= n,
            forall|t: int| 0 <= t < k ==> dst@[off + t] == src@[t],
            forall|t: int| 0 <= t < off ==> dst@[t] == old(dst)@[t],
            forall|t: int| off + n <= t < dst@.len() ==> dst@[t] == old(dst)@[t],
            forall|t: int| off + k <= t < off + n ==> dst@[t] == old(dst)@[t],
        decreases n - k,
    {
        dst.set(off + k, src[k]);
        k = k + 1;
    }
    proof {
        assert(dst@ =~= old(dst)@.subrange(0, off as int) + src@ + old(dst)@.subrange(
            off as int + src@.len(),
            old(dst)@.len() as int,
        ));
    }
}

} // verus!
