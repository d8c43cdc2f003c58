//! Metadata sector codec.
//!
//! A metadata sector is exactly `SECTOR_SIZE` bytes:
//!
//! - offset 0..4: magic `"BKMD"`,
//! - offset 4: version,
//! - offset 5: the grouping factor `G` (sanity),
//! - offset 6..8: reserved, zero,
//! - offset 8..12: sequence number, little-endian,
//! - offset 12..16: reserved for a checksum (zero; the reader tolerates any
//!   value),
//! - offset 16..32: reserved, zero,
//! - offset 32..512: `G` entries of 20 bytes: a little-endian counter then a
//!   16-byte tag.

use vstd::prelude::*;
use vstd::arithmetic::div_mod::{
    lemma_fundamental_div_mod, lemma_fundamental_div_mod_converse,
};
use vstd::bytes::{
    lemma_auto_spec_u32_to_from_le_bytes, spec_u32_from_le_bytes, spec_u32_to_le_bytes,
    u32_from_le_bytes, u32_to_le_bytes,
};
use vstd::slice::{slice_subrange, slice_to_vec};

use crate::bytesops::{clone_bytes, zero_bytes, zeros};
use crate::errors::DiskError;

verus! {

/// First magic byte, `'B'`.
pub const META_MAGIC0: u8 = 0x42;

/// Second magic byte, `'K'`.
pub const META_MAGIC1: u8 = 0x4B;

/// Third magic byte, `'M'`.
pub const META_MAGIC2: u8 = 0x4D;

/// Fourth magic byte, `'D'`.
pub const META_MAGIC3: u8 = 0x44;

/// Metadata format version.
pub const META_VERSION: u8 = 1;

/// Header length in bytes; entries start here.
pub const META_HEADER_LEN: usize = 32;

/// Bytes per entry: a 4-byte counter and a 16-byte tag.
pub const META_ENTRY_LEN: usize = 20;

/// Tag length in bytes.
pub const TAG_LEN: usize = 16;

/// Mathematical model of one entry.
#[verifier::ext_equal]
pub ghost struct EntryModel {
    pub counter: u32,
    pub tag: Seq<u8>,
}

/// Mathematical model of a metadata sector.
#[verifier::ext_equal]
pub ghost struct MetaModel {
    pub seq: u32,
    pub entries: Seq<EntryModel>,
}

/// An entry's tag is always 16 bytes.
pub open spec fn entry_wf(e: EntryModel) -> bool {
    e.tag.len() == 16
}

/// An entry is empty exactly when its counter is zero and its tag all zero:
/// the corresponding sector has never been written.
pub open spec fn entry_is_empty(e: EntryModel) -> bool {
    e.counter == 0 && e.tag == zeros(16)
}

/// A metadata sector holds 24 well-formed entries.
pub open spec fn meta_wf(m: MetaModel) -> bool {
    m.entries.len() == 24 && forall|i: int| 0 <= i < 24 ==> entry_wf(#[trigger] m.entries[i])
}

/// The defaulted sector: sequence zero, every entry empty.
pub open spec fn default_meta() -> MetaModel {
    MetaModel { seq: 0, entries: Seq::new(24, |i: int| EntryModel { counter: 0, tag: zeros(16) }) }
}

/// A buffer decodes exactly when it is sector-sized and its magic, version
/// and grouping factor match.
pub open spec fn decode_ok(s: Seq<u8>) -> bool {
    &&& s.len() == 512
    &&& s[0] == META_MAGIC0
    &&& s[1] == META_MAGIC1
    &&& s[2] == META_MAGIC2
    &&& s[3] == META_MAGIC3
    &&& s[4] == META_VERSION
    &&& s[5] == 24
}

/// The model a well-formed buffer decodes to.
pub open spec fn spec_decode(s: Seq<u8>) -> MetaModel {
    MetaModel {
        seq: spec_u32_from_le_bytes(s.subrange(8, 12)),
        entries: Seq::new(
            24,
            |i: int|
                EntryModel {
                    counter: spec_u32_from_le_bytes(s.subrange(32 + 20 * i, 36 + 20 * i)),
                    tag: s.subrange(36 + 20 * i, 52 + 20 * i),
                },
        ),
    }
}

/// Decoding with the bootstrap fallback: a buffer that does not decode is
/// read as the defaulted sector.
pub open spec fn decode_or_default_spec(s: Seq<u8>) -> MetaModel {
    if decode_ok(s) {
        spec_decode(s)
    } else {
        default_meta()
    }
}

/// Byte `i` of the encoding of `m`.
pub open spec fn meta_byte(m: MetaModel, i: int) -> u8 {
    if i == 0 {
        META_MAGIC0
    } else if i == 1 {
        META_MAGIC1
    } else if i == 2 {
        META_MAGIC2
    } else if i == 3 {
        META_MAGIC3
    } else if i == 4 {
        META_VERSION
    } else if i == 5 {
        24
    } else if 8 <= i < 12 {
        spec_u32_to_le_bytes(m.seq)[i - 8]
    } else if 32 <= i < 512 {
        let e = (i - 32) / 20;
        let o = (i - 32) % 20;
        if o < 4 {
            spec_u32_to_le_bytes(m.entries[e].counter)[o]
        } else {
            m.entries[e].tag[o - 4]
        }
    } else {
        0
    }
}

/// The 512-byte encoding of `m`.
pub open spec fn spec_encode(m: MetaModel) -> Seq<u8> {
    Seq::new(512, |i: int| meta_byte(m, i))
}

/// A buffer is canonical when it decodes and all its reserved bytes are zero;
/// exactly these buffers survive a decode/encode round trip unchanged.
pub open spec fn canonical_meta(s: Seq<u8>) -> bool {
    &&& decode_ok(s)
    &&& forall|i: int| 6 <= i < 8 ==> s[i] == 0
    &&& forall|i: int| 12 <= i < 32 ==> s[i] == 0
}

/// One (counter, tag) record of a metadata sector.
pub struct MetaEntry {
    pub counter: u32,
    pub tag: Vec<u8>,
}

impl View for MetaEntry {
    type V = EntryModel;

    open spec fn view(&self) -> EntryModel {
        EntryModel { counter: self.counter, tag: self.tag@ }
    }
}

impl MetaEntry {
    /// An entry is empty when its counter is zero and its tag all zero.
    pub fn is_empty(&self) -> (r: bool)
        requires
            entry_wf(self@),
        ensures
            r == entry_is_empty(self@),
    {
        if self.counter != 0 {
            return false;
        }
        let mut i: usize = 0;
        while i < TAG_LEN
            invariant
                self.tag@.len() == 16,
                0 <= i <= 16,
                forall|k: int| 0 <= k < i ==> self.tag@[k] == 0,
            decreases 16 - i,
        {
            if self.tag[i] != 0 {
                proof {
                    assert(self.tag@[i as int] != zeros(16)[i as int]);
                }
                return false;
            }
            i = i + 1;
        }
        proof {
            assert(self.tag@ =~= zeros(16));
        }
        true
    }
}

/// In-memory form of a metadata sector.
pub struct MetaSector {
    pub seq: u32,
    pub entries: Vec<MetaEntry>,
}

impl View for MetaSector {
    type V = MetaModel;

    open spec fn view(&self) -> MetaModel {
        MetaModel { seq: self.seq, entries: self.entries@.map_values(|e: MetaEntry| e@) }
    }
}

impl Default for MetaSector {
    /// The defaulted sector: sequence zero, every entry empty.
    fn default() -> (r: Self)
        ensures
            r@ == default_meta(),
            meta_wf(r@),
    {
        let mut entries: Vec<MetaEntry> = Vec::new();
        let mut i: usize = 0;
        while i < 24
            invariant
                0 <= i <= 24,
                entries@.len() == i,
                forall|k: int|
                    0 <= k < i ==> #[trigger] entries@[k]@ == (EntryModel {
                        counter: 0,
                        tag: zeros(16),
                    }),
            decreases 24 - i,
        {
            entries.push(MetaEntry { counter: 0, tag: zero_bytes(TAG_LEN) });
            i = i + 1;
        }
        let r = MetaSector { seq: 0, entries };
        proof {
            assert(r@.entries =~= default_meta().entries);
            assert(r@ =~= default_meta());
        }
        r
    }
}

impl MetaSector {
    /// Parses a sector-sized buffer; surfaces a mismatched header as an
    /// error. A short or long buffer is a size mismatch; a wrong magic,
    /// version or grouping factor is a format error.
    pub fn decode(buf: &Vec<u8>) -> (r: Result<MetaSector, DiskError>)
        ensures
            r matches Ok(m) ==> decode_ok(buf@) && m@ == spec_decode(buf@) && meta_wf(m@),
            decode_ok(buf@) ==> r is Ok,
            buf@.len() != 512 ==> (r matches Err(e) && e == DiskError::SizeMismatch),
            buf@.len() == 512 && !decode_ok(buf@) ==> (r matches Err(e) && e
                == DiskError::InvalidFormat),
    {
        if buf.len() != 512 {
            return Err(DiskError::SizeMismatch);
        }
        if buf[0] != META_MAGIC0 || buf[1] != META_MAGIC1 || buf[2] != META_MAGIC2 || buf[3]
            != META_MAGIC3 {
            return Err(DiskError::InvalidFormat);
        }
        if buf[4] != META_VERSION {
            return Err(DiskError::InvalidFormat);
        }
        if buf[5] != 24 {
            return Err(DiskError::InvalidFormat);
        }
        let seq = u32_from_le_bytes(slice_subrange(buf.as_slice(), 8, 12));
        let mut entries: Vec<MetaEntry> = Vec::new();
        let mut i: usize = 0;
        while i < 24
            invariant
                decode_ok(buf@),
                0 <= i <= 24,
                entries@.len() == i,
                forall|k: int|
                    0 <= k < i ==> #[trigger] entries@[k]@ == spec_decode(buf@).entries[k],
            decreases 24 - i,
        {
            let off = META_HEADER_LEN + META_ENTRY_LEN * i;
            let counter = u32_from_le_bytes(slice_subrange(buf.as_slice(), off, off + 4));
            let tag = slice_to_vec(slice_subrange(buf.as_slice(), off + 4, off + 20));
            entries.push(MetaEntry { counter, tag });
            i = i + 1;
        }
        let m = MetaSector { seq, entries };
        proof {
            assert(m@.entries =~= spec_decode(buf@).entries);
            assert(m@ =~= spec_decode(buf@));
            lemma_decode_wf_direct(buf@);
        }
        Ok(m)
    }

    /// Parses a buffer, falling back to the defaulted sector when the header
    /// does not match. This bootstraps a freshly initialised medium.
    pub fn decode_or_default(buf: &Vec<u8>) -> (r: Result<MetaSector, DiskError>)
        ensures
            r matches Ok(m) && m@ == decode_or_default_spec(buf@) && meta_wf(m@),
    {
        match Self::decode(buf) {
            Ok(m) => Ok(m),
            Err(_) => {
                let d = MetaSector::default();
                proof {
                    lemma_default_meta_wf();
                }
                Ok(d)
            },
        }
    }

    /// Serialises this sector over a sector-sized buffer; every byte not
    /// covered by the header or an entry is zero.
    pub fn encode(&self, buf: &mut Vec<u8>) -> (r: Result<(), DiskError>)
        requires
            meta_wf(self@),
        ensures
            old(buf)@.len() == 512 ==> r is Ok && final(buf)@ == spec_encode(self@),
            old(buf)@.len() != 512 ==> (r matches Err(e) && e == DiskError::SizeMismatch
                && final(buf)@ == old(buf)@),
    {
        if buf.len() != 512 {
            return Err(DiskError::SizeMismatch);
        }
        let ghost model = self@;
        let mut out = zero_bytes(512);
        out.set(0, META_MAGIC0);
        out.set(1, META_MAGIC1);
        out.set(2, META_MAGIC2);
        out.set(3, META_MAGIC3);
        out.set(4, META_VERSION);
        out.set(5, 24);
        let sb = u32_to_le_bytes(self.seq);
        proof {
            lemma_auto_spec_u32_to_from_le_bytes();
        }
        out.set(8, sb[0]);
        out.set(9, sb[1]);
        out.set(10, sb[2]);
        out.set(11, sb[3]);
        proof {
            assert forall|k: int| 0 <= k < 32 implies out@[k] == meta_byte(model, k) by {}
        }
        let mut i: usize = 0;
        while i < 24
            invariant
                meta_wf(model),
                model == self@,
                out@.len() == 512,
                0 <= i <= 24,
                forall|k: int| 0 <= k < 32 + 20 * i ==> out@[k] == meta_byte(model, k),
                forall|k: int| 32 + 20 * i <= k < 512 ==> out@[k] == 0,
            decreases 24 - i,
        {
            let off = META_HEADER_LEN + META_ENTRY_LEN * i;
            let e = &self.entries[i];
            proof {
                assert(e@ == model.entries[i as int]);
            }
            let cb = u32_to_le_bytes(e.counter);
            proof {
                lemma_auto_spec_u32_to_from_le_bytes();
            }
            let mut k: usize = 0;
            while k < 4
                invariant
                    0 <= k <= 4,
                    i < 24,
                    off == 32 + 20 * i,
                    out@.len() == 512,
                    cb@ == spec_u32_to_le_bytes(model.entries[i as int].counter),
                    cb@.len() == 4,
                    forall|t: int| 0 <= t < off + k ==> out@[t] == meta_byte(model, t),
                    forall|t: int| off + k <= t < 512 ==> out@[t] == 0,
                decreases 4 - k,
            {
                out.set(off + k, cb[k]);
                proof {
                    lemma_fundamental_div_mod_converse(20 * (i as int) + k as int, 20, i as int, k as int);
                    assert(meta_byte(model, (off + k) as int) == cb@[k as int]);
                }
                k = k + 1;
            }
            let mut t: usize = 0;
            while t < TAG_LEN
                invariant
                    0 <= t <= 16,
                    i < 24,
                    off == 32 + 20 * i,
                    out@.len() == 512,
                    meta_wf(model),
                    model.entries[i as int].tag == self.entries@[i as int]@.tag,
                    self.entries@.len() == 24,
                    self.entries@[i as int]@.tag.len() == 16,
                    forall|q: int| 0 <= q < off + 4 + t ==> out@[q] == meta_byte(model, q),
                    forall|q: int| off + 4 + t <= q < 512 ==> out@[q] == 0,
                decreases 16 - t,
            {
                let b = self.entries[i].tag[t];
                out.set(off + 4 + t, b);
                proof {
                    lemma_fundamental_div_mod_converse(
                        20 * (i as int) + 4 + t as int,
                        20,
                        i as int,
                        4 + t as int,
                    );
                    assert(meta_byte(model, (off + 4 + t) as int) == model.entries[i as int].tag[
                        t as int
                    ]);
                }
                t = t + 1;
            }
            i = i + 1;
        }
        proof {
            assert(out@ =~= spec_encode(model));
        }
        buf.clear();
        buf.append(&mut out);
        Ok(())
    }
}

/// Reads entry `idx` of `meta`; an index at or past the grouping factor is
/// invalid.
pub fn get_entry(meta: &MetaSector, idx: usize) -> (r: Result<MetaEntry, DiskError>)
    requires
        meta_wf(meta@),
    ensures
        idx < 24 ==> (r matches Ok(e) && e@ == meta@.entries[idx as int]),
        idx >= 24 ==> (r matches Err(e) && e == DiskError::InvalidArgument),
{
    if idx >= G_USIZE {
        return Err(DiskError::InvalidArgument);
    }
    let e = &meta.entries[idx];
    Ok(MetaEntry { counter: e.counter, tag: clone_bytes(&e.tag) })
}

/// Overwrites entry `idx` of `meta` with the given counter and tag; an index
/// at or past the grouping factor is invalid and leaves `meta` unchanged.
pub fn set_entry(meta: &mut MetaSector, idx: usize, counter: u32, tag: &Vec<u8>) -> (r: Result<
    (),
    DiskError,
>)
    requires
        meta_wf(old(meta)@),
        tag@.len() == 16,
    ensures
        idx < 24 ==> {
            &&& r is Ok
            &&& final(meta)@.seq == old(meta)@.seq
            &&& final(meta)@.entries == old(meta)@.entries.update(
                idx as int,
                EntryModel { counter, tag: tag@ },
            )
            &&& meta_wf(final(meta)@)
        },
        idx >= 24 ==> (r matches Err(e) && e == DiskError::InvalidArgument
            && *final(meta) == *old(meta)),
{
    if idx >= G_USIZE {
        return Err(DiskError::InvalidArgument);
    }
    let e = MetaEntry { counter, tag: clone_bytes(tag) };
    meta.entries.set(idx, e);
    proof {
        assert(meta@.entries =~= old(meta)@.entries.update(
            idx as int,
            EntryModel { counter, tag: tag@ },
        ));
    }
    Ok(())
}

/// Grouping factor as a `usize`.
pub const G_USIZE: usize = 24;

/// The defaulted sector is well formed and empty throughout.
pub proof fn lemma_default_meta_wf()
    ensures
        meta_wf(default_meta()),
        forall|i: int| 0 <= i < 24 ==> entry_is_empty(#[trigger] default_meta().entries[i]),
{
}

/// A buffer that decodes yields a well-formed model.
pub proof fn lemma_decode_wf_direct(s: Seq<u8>)
    requires
        decode_ok(s),
    ensures
        meta_wf(spec_decode(s)),
{
    assert forall|i: int| 0 <= i < 24 implies entry_wf(#[trigger] spec_decode(s).entries[i]) by {
        assert(spec_decode(s).entries[i].tag.len() == 16);
    }
}

/// Round trip, model side: every well-formed metadata sector decodes from its
/// own encoding unchanged.
pub proof fn lemma_encode_decode(m: MetaModel)
    requires
        meta_wf(m),
    ensures
        decode_ok(spec_encode(m)),
        spec_decode(spec_encode(m)) == m,
        canonical_meta(spec_encode(m)),
{
    lemma_auto_spec_u32_to_from_le_bytes();
    let s = spec_encode(m);
    assert(s.subrange(8, 12) =~= spec_u32_to_le_bytes(m.seq));
    assert forall|i: int| 0 <= i < 24 implies #[trigger] spec_decode(s).entries[i]
        == m.entries[i] by {
        assert forall|k: int| 0 <= k < 4 implies s.subrange(32 + 20 * i, 36 + 20 * i)[k]
            == spec_u32_to_le_bytes(m.entries[i].counter)[k] by {
            lemma_fundamental_div_mod_converse(20 * i + k, 20, i, k);
            assert(s[32 + 20 * i + k] == meta_byte(m, 32 + 20 * i + k));
        }
        assert(s.subrange(32 + 20 * i, 36 + 20 * i) =~= spec_u32_to_le_bytes(
            m.entries[i].counter,
        ));
        assert forall|k: int| 0 <= k < 16 implies s.subrange(36 + 20 * i, 52 + 20 * i)[k]
            == m.entries[i].tag[k] by {
            lemma_fundamental_div_mod_converse(20 * i + 4 + k, 20, i, 4 + k);
            assert(s[36 + 20 * i + k] == meta_byte(m, 36 + 20 * i + k));
        }
        assert(s.subrange(36 + 20 * i, 52 + 20 * i) =~= m.entries[i].tag);
        assert(spec_decode(s).entries[i] =~= m.entries[i]);
    }
    assert(spec_decode(s).entries =~= m.entries);
    assert(spec_decode(s) =~= m);
}

/// Round trip, buffer side: a canonical buffer re-encodes to itself. A buffer
/// that decodes but carries a nonzero reserved byte does not: encoding zeroes
/// that byte.
pub proof fn lemma_decode_reencode(s: Seq<u8>)
    requires
        canonical_meta(s),
    ensures
        spec_encode(spec_decode(s)) == s,
{
    lemma_auto_spec_u32_to_from_le_bytes();
    let m = spec_decode(s);
    assert forall|i: int| 0 <= i < 512 implies spec_encode(m)[i] == s[i] by {
        if 8 <= i < 12 {
            assert(s.subrange(8, 12).len() == 4);
            assert(spec_u32_to_le_bytes(spec_u32_from_le_bytes(s.subrange(8, 12))) == s.subrange(
                8,
                12,
            ));
            assert(meta_byte(m, i) == s.subrange(8, 12)[i - 8]);
        } else if 32 <= i < 512 {
            let e = (i - 32) / 20;
            let o = (i - 32) % 20;
            lemma_fundamental_div_mod(i - 32, 20);
            assert(0 <= o < 20);
            assert(e < 24) by {
                if e >= 24 {
                    assert(20 * e >= 480) by (nonlinear_arith)
                        requires e >= 24;
                }
            }
            assert(e >= 0) by {
                if e < 0 {
                    assert(20 * e <= -20) by (nonlinear_arith)
                        requires e < 0;
                }
            }
            if o < 4 {
                assert(s.subrange(32 + 20 * e, 36 + 20 * e).len() == 4);
                assert(spec_u32_to_le_bytes(m.entries[e].counter) == s.subrange(
                    32 + 20 * e,
                    36 + 20 * e,
                ));
                assert(meta_byte(m, i) == s.subrange(32 + 20 * e, 36 + 20 * e)[o]);
                assert(s.subrange(32 + 20 * e, 36 + 20 * e)[o] == s[i]);
            } else {
                assert(meta_byte(m, i) == m.entries[e].tag[o - 4]);
                assert(m.entries[e].tag == s.subrange(36 + 20 * e, 52 + 20 * e));
                assert(s.subrange(36 + 20 * e, 52 + 20 * e)[o - 4] == s[i]);
            }
        }
    }
    assert(spec_encode(m) =~= s);
}

/// Corollary used by the write-back engine: the encoding of a well-formed
/// sector decodes (with the bootstrap fallback) to that same sector.
pub proof fn lemma_encode_then_decode_or_default(m: MetaModel)
    requires
        meta_wf(m),
    ensures
        decode_or_default_spec(spec_encode(m)) == m,
{
    lemma_encode_decode(m);
}

} // verus!
