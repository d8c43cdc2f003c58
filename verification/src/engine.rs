//! Encrypted block engine: orchestrates reads and writes over the storage
//! medium.
//!
//! The engine maps logical sectors to physical positions, caches at most one
//! metadata sector (write-back), builds the IV and AAD for each sector from
//! its logical address and per-sector counter, and seals or opens sector
//! contents with the AEAD box. A dirty metadata sector is always written
//! back before any other metadata sector is loaded, and ciphertext always
//! reaches the medium before the metadata that authenticates it. Sector I/O
//! is issued one sector at a time — the lowest batch ceiling the layout
//! permits; metadata is always written one sector at a time.
//!
//! The contracts speak of the *effective* state of the volume: the metadata
//! a group would show once the cache is flushed, together with the medium's
//! ciphertext sectors. Reads and writes preserve the effective state of
//! every logical sector they do not touch.

use vstd::prelude::*;

use crate::aead::{gcm_dec, gcm_tag, valid_key_len, AesGcm};
use crate::bytesops::{copy_into, sub_bytes, zero_bytes, zeros};
use crate::errors::DiskError;
use crate::layout::{
    lemma_data_phys_injective, lemma_phys_in_range, lemma_phys_mod, logical_block_count_from_physical,
    map_lba, spec_data_phys, spec_logical_count, spec_meta_phys, validate_block_size,
};
use crate::medium::{
    lemma_num_sectors_bound, lemma_single_sector_write, medium_wf, num_sectors, sector_bytes,
    StorageMedium,
};
use crate::meta::{
    decode_or_default_spec, entry_is_empty, entry_wf, lemma_encode_then_decode_or_default, meta_wf,
    EntryModel, MetaModel, MetaSector, get_entry, set_entry,
};
use crate::sector_crypto::{decrypt_sector, encrypt_sector, spec_aad, spec_iv};

verus! {

/// Logical sectors exposed by a medium: its whole groups, each contributing
/// its data sectors.
pub open spec fn logical_cap(m: Seq<u8>) -> int {
    spec_logical_count(num_sectors(m))
}

/// Bytes of the ciphertext sector backing logical sector `l`.
pub open spec fn data_at(m: Seq<u8>, l: int) -> Seq<u8> {
    sector_bytes(m, spec_data_phys(l))
}

/// The encrypted block engine.
pub struct EncryptedDisk {
    gcm: AesGcm,
    cached_meta_lba: Option<u32>,
    cached_meta: MetaSector,
    cached_meta_dirty: bool,
}

impl EncryptedDisk {
    /// The volume key.
    pub closed spec fn key(self) -> Seq<u8> {
        self.gcm.key()
    }

    /// Physical position of the cached metadata sector, if one is cached.
    pub closed spec fn cache_lba(self) -> Option<u32> {
        self.cached_meta_lba
    }

    /// Model of the cached metadata sector.
    pub closed spec fn cache(self) -> MetaModel {
        self.cached_meta@
    }

    /// Whether the cached metadata sector has pending local edits.
    pub closed spec fn dirty(self) -> bool {
        self.cached_meta_dirty
    }

    /// Structural invariant: a valid key, a well-formed cached sector,
    /// pending edits only on a cached sector, and a cache position that is a
    /// metadata position.
    pub open spec fn wf(self) -> bool {
        &&& valid_key_len(self.key().len() as int)
        &&& meta_wf(self.cache())
        &&& (self.dirty() ==> self.cache_lba() is Some)
        &&& (self.cache_lba() matches Some(p) ==> p as int % 25 == 24)
    }

    /// Cache coherence against a medium: the cache position lies on the
    /// medium, and a clean cache matches what its sector decodes to.
    pub open spec fn in_sync(self, m: Seq<u8>) -> bool {
        &&& medium_wf(m)
        &&& (self.cache_lba() matches Some(p) ==> {
            &&& (p as int) < num_sectors(m)
            &&& (!self.dirty() ==> decode_or_default_spec(sector_bytes(m, p as int))
                == self.cache())
        })
    }

    /// Whether group `g`'s metadata sector is the cached one.
    pub open spec fn group_cached(self, g: int) -> bool {
        match self.cache_lba() {
            Some(p) => p as int == g * 25 + 24,
            None => false,
        }
    }

    /// Effective metadata of group `g`: the cache if it holds this group,
    /// else what the group's metadata sector decodes to.
    pub open spec fn group_meta(self, m: Seq<u8>, g: int) -> MetaModel {
        if self.group_cached(g) {
            self.cache()
        } else {
            decode_or_default_spec(sector_bytes(m, g * 25 + 24))
        }
    }

    /// Effective metadata entry of logical sector `l`.
    pub open spec fn entry_at(self, m: Seq<u8>, l: int) -> EntryModel {
        self.group_meta(m, l / 24).entries[l % 24]
    }

    /// Logical sector `l` is sealed: never written, or authenticated by its
    /// entry — a positive counter and a tag that verifies over the sector's
    /// ciphertext under the IV and AAD built from (address, counter).
    pub open spec fn sealed_at(self, m: Seq<u8>, l: int) -> bool {
        let e = self.entry_at(m, l);
        ||| entry_is_empty(e)
        ||| (e.counter >= 1 && e.tag == gcm_tag(
            self.key(),
            spec_iv(l as u32, e.counter),
            spec_aad(l as u32, e.counter),
            data_at(m, l),
        ))
    }

    /// Effective plaintext of logical sector `l`: zeros if never written,
    /// else the decryption of its ciphertext sector under its entry's IV.
    pub open spec fn content_at(self, m: Seq<u8>, l: int) -> Seq<u8> {
        let e = self.entry_at(m, l);
        if entry_is_empty(e) {
            zeros(512)
        } else {
            gcm_dec(self.key(), spec_iv(l as u32, e.counter), data_at(m, l))
        }
    }
}

/// A sequence number advances by one, wrapping at the 32-bit boundary.
pub open spec fn wrap_inc(c: u32) -> u32 {
    if c == u32::MAX {
        0u32
    } else {
        (c + 1) as u32
    }
}

/// Counter used by the next write to a sector whose entry holds counter `c`:
/// a fresh sector starts at 1, a written one advances by one. The value
/// `u32::MAX` has no successor; writing such a sector is counter exhaustion.
pub open spec fn next_counter(c: u32) -> u32 {
    if c == 0 {
        1u32
    } else {
        (c + 1) as u32
    }
}

/// The step from `(s0, m0)` to `(s1, m1)` preserved the effective metadata
/// entry and the ciphertext of every logical sector.
pub open spec fn preserves_logical(
    s0: EncryptedDisk,
    m0: Seq<u8>,
    s1: EncryptedDisk,
    m1: Seq<u8>,
) -> bool {
    &&& m1.len() == m0.len()
    &&& forall|l: int|
        0 <= l < logical_cap(m0) ==> #[trigger] s1.entry_at(m1, l) == s0.entry_at(m0, l)
    &&& forall|l: int| 0 <= l < logical_cap(m0) ==> #[trigger] data_at(m1, l) == data_at(m0, l)
}

/// Preservation composes.
pub proof fn lemma_preserves_trans(
    s0: EncryptedDisk,
    m0: Seq<u8>,
    s1: EncryptedDisk,
    m1: Seq<u8>,
    s2: EncryptedDisk,
    m2: Seq<u8>,
)
    requires
        preserves_logical(s0, m0, s1, m1),
        preserves_logical(s1, m1, s2, m2),
    ensures
        preserves_logical(s0, m0, s2, m2),
{
    assert(logical_cap(m1) == logical_cap(m0));
}

/// A step that preserves entries and ciphertext under the same key preserves
/// what every sector is sealed by and decrypts to.
pub proof fn lemma_preserves_content(s0: EncryptedDisk, m0: Seq<u8>, s1: EncryptedDisk, m1: Seq<u8>)
    requires
        preserves_logical(s0, m0, s1, m1),
        s1.key() == s0.key(),
    ensures
        forall|l: int|
            0 <= l < logical_cap(m0) ==> (#[trigger] s1.sealed_at(m1, l) <==> s0.sealed_at(m0, l)),
        forall|l: int|
            0 <= l < logical_cap(m0) ==> #[trigger] s1.content_at(m1, l) == s0.content_at(m0, l),
{
    assert forall|l: int| 0 <= l < logical_cap(m0) implies (#[trigger] s1.sealed_at(m1, l)
        <==> s0.sealed_at(m0, l)) by {
        assert(s1.entry_at(m1, l) == s0.entry_at(m0, l));
        assert(data_at(m1, l) == data_at(m0, l));
    }
    assert forall|l: int| 0 <= l < logical_cap(m0) implies #[trigger] s1.content_at(m1, l)
        == s0.content_at(m0, l) by {
        assert(s1.entry_at(m1, l) == s0.entry_at(m0, l));
        assert(data_at(m1, l) == data_at(m0, l));
    }
}

impl EncryptedDisk {
    /// Builds an engine bound to `key`; only 128-, 192- and 256-bit keys are
    /// accepted. The engine starts with no cached metadata.
    pub fn new(key: &Vec<u8>) -> (r: Result<EncryptedDisk, DiskError>)
        ensures
            r is Ok <==> valid_key_len(key@.len() as int),
            r matches Ok(d) ==> {
                &&& d.wf()
                &&& d.key() == key@
                &&& d.cache_lba() is None
                &&& !d.dirty()
            },
            r matches Err(e) ==> e == DiskError::SizeMismatch,
    {
        let gcm = match AesGcm::new(key) {
            Ok(g) => g,
            Err(e) => {
                return Err(e);
            },
        };
        Ok(
            EncryptedDisk {
                gcm,
                cached_meta_lba: None,
                cached_meta: MetaSector::default(),
                cached_meta_dirty: false,
            },
        )
    }

    /// Queries the medium's capacity, validates its block size, and returns
    /// the block size with the logical block count the medium exposes.
    pub fn capacity_logical(&self, med: &StorageMedium) -> (r: Result<(u32, u32), DiskError>)
        requires
            medium_wf(med@),
        ensures
            r matches Ok(c) && c.0 == 512 && c.1 as int == logical_cap(med@),
    {
        let (bs, bc_phys) = med.get_capacity();
        match validate_block_size(bs) {
            Ok(()) => {},
            Err(e) => {
                return Err(e);
            },
        }
        let bc_log = logical_block_count_from_physical(bc_phys);
        Ok((bs, bc_log))
    }

    /// Writes the cached metadata sector back to the medium if it has
    /// pending edits: bumps its sequence number, encodes it, and writes one
    /// sector. Without a cached sector, or without edits, this is a no-op.
    fn flush_meta(&mut self, med: &mut StorageMedium) -> (r: Result<(), DiskError>)
        requires
            old(self).wf(),
            old(self).in_sync(old(med)@),
        ensures
            final(self).wf(),
            final(self).in_sync(final(med)@),
            final(self).key() == old(self).key(),
            final(self).cache_lba() == old(self).cache_lba(),
            !final(self).dirty(),
            final(self).cache().entries == old(self).cache().entries,
            final(self).cache().seq == (if old(self).dirty() {
                wrap_inc(old(self).cache().seq)
            } else {
                old(self).cache().seq
            }),
            r is Ok,
            preserves_logical(*old(self), old(med)@, *final(self), final(med)@),
    {
        let meta_lba = match self.cached_meta_lba {
            Some(p) => p,
            None => {
                return Ok(());
            },
        };
        if !self.cached_meta_dirty {
            return Ok(());
        }
        let ghost s0 = *self;
        let ghost m0 = med@;
        proof {
            lemma_num_sectors_bound(m0);
        }
        let newseq = if self.cached_meta.seq == u32::MAX {
            0
        } else {
            self.cached_meta.seq + 1
        };
        self.cached_meta.seq = newseq;
        let mut buf = zero_bytes(512);
        match self.cached_meta.encode(&mut buf) {
            Ok(()) => {},
            Err(e) => {
                proof {
                    assert(false);
                }
                return Err(e);
            },
        }
        match med.write_sectors(meta_lba, &buf) {
            Ok(()) => {},
            Err(e) => {
                proof {
                    assert(false);
                }
                return Err(e);
            },
        }
        self.cached_meta_dirty = false;
        proof {
            lemma_single_sector_write(m0, med@, meta_lba as int, buf@);
            lemma_encode_then_decode_or_default(self.cached_meta@);
            assert(decode_or_default_spec(sector_bytes(med@, meta_lba as int))
                == self.cached_meta@);
            assert forall|l: int| 0 <= l < logical_cap(m0) implies #[trigger] self.entry_at(
                med@,
                l,
            ) == s0.entry_at(m0, l) by {
                lemma_phys_in_range(l, num_sectors(m0));
                lemma_phys_mod(l);
                if !s0.group_cached(l / 24) {
                    assert(spec_meta_phys(l) != meta_lba as int);
                    assert(sector_bytes(med@, spec_meta_phys(l)) == sector_bytes(
                        m0,
                        spec_meta_phys(l),
                    ));
                }
            }
            assert forall|l: int| 0 <= l < logical_cap(m0) implies #[trigger] data_at(med@, l)
                == data_at(m0, l) by {
                lemma_phys_in_range(l, num_sectors(m0));
                lemma_phys_mod(l);
                assert(spec_data_phys(l) != meta_lba as int);
            }
        }
        Ok(())
    }

    /// Makes group metadata at physical position `meta_lba_phys` the cached
    /// sector: a no-op if it already is; otherwise any pending edits are
    /// written back first, then the sector is read and decoded, falling back
    /// to the defaulted sector on a mismatched header.
    fn load_meta(&mut self, med: &mut StorageMedium, meta_lba_phys: u32) -> (r: Result<
        (),
        DiskError,
    >)
        requires
            old(self).wf(),
            old(self).in_sync(old(med)@),
            meta_lba_phys as int % 25 == 24,
            (meta_lba_phys as int) < num_sectors(old(med)@),
        ensures
            final(self).wf(),
            final(self).in_sync(final(med)@),
            final(self).key() == old(self).key(),
            final(self).cache_lba() == Some(meta_lba_phys),
            r is Ok,
            preserves_logical(*old(self), old(med)@, *final(self), final(med)@),
    {
        let hit = match self.cached_meta_lba {
            Some(p) => p == meta_lba_phys,
            None => false,
        };
        if hit {
            return Ok(());
        }
        let ghost s0 = *self;
        let ghost m0 = med@;
        match self.flush_meta(med) {
            Ok(()) => {},
            Err(e) => {
                proof {
                    assert(false);
                }
                return Err(e);
            },
        }
        let ghost s1 = *self;
        let ghost m1 = med@;
        proof {
            lemma_num_sectors_bound(m1);
        }
        let buf = match med.read_sectors(meta_lba_phys, 1) {
            Ok(b) => b,
            Err(e) => {
                proof {
                    assert(false);
                }
                return Err(e);
            },
        };
        proof {
            assert((meta_lba_phys as int + 1) * 512 == meta_lba_phys as int * 512 + 512);
            assert(buf@ == sector_bytes(m1, meta_lba_phys as int));
        }
        let m = match MetaSector::decode_or_default(&buf) {
            Ok(m) => m,
            Err(e) => {
                proof {
                    assert(false);
                }
                return Err(e);
            },
        };
        self.cached_meta = m;
        self.cached_meta_lba = Some(meta_lba_phys);
        self.cached_meta_dirty = false;
        proof {
            assert forall|l: int| 0 <= l < logical_cap(m1) implies #[trigger] self.entry_at(
                med@,
                l,
            ) == s1.entry_at(m1, l) by {
                lemma_phys_in_range(l, num_sectors(m1));
                lemma_phys_mod(l);
                let g = l / 24;
                if self.group_cached(g) {
                    assert(self.group_meta(med@, g) == decode_or_default_spec(
                        sector_bytes(m1, g * 25 + 24),
                    ));
                    assert(!s1.group_cached(g));
                } else {
                    if s1.group_cached(g) {
                        assert(!s1.dirty());
                        assert(self.group_meta(med@, g) == s1.cache());
                    }
                }
            }
            lemma_preserves_trans(s0, m0, s1, m1, *self, med@);
        }
        Ok(())
    }

    /// Reads `nblocks` logical sectors starting at `lba_start` into `out`.
    ///
    /// A sector that was never written reads as zeros without touching its
    /// ciphertext position. A written sector is read back and opened against
    /// its entry's counter and tag; any sector that fails to authenticate
    /// fails the whole read, and the output beyond the failure point is
    /// unspecified. Succeeds exactly when the output buffer is sized to the
    /// request, the range lies within the logical capacity, and every
    /// requested sector is sealed.
    pub fn read10(
        &mut self,
        med: &mut StorageMedium,
        lba_start: u32,
        nblocks: u32,
        out: &mut Vec<u8>,
    ) -> (r: Result<(), DiskError>)
        requires
            old(self).wf(),
            old(self).in_sync(old(med)@),
        ensures
            final(self).wf(),
            final(self).in_sync(final(med)@),
            final(self).key() == old(self).key(),
            final(out)@.len() == old(out)@.len(),
            preserves_logical(*old(self), old(med)@, *final(self), final(med)@),
            ({
                let ok_sizes = old(out)@.len() == nblocks as int * 512;
                let ok_range = lba_start as int + nblocks as int <= logical_cap(old(med)@);
                let ok_seal = forall|i: int|
                    0 <= i < nblocks as int ==> #[trigger] old(self).sealed_at(
                        old(med)@,
                        lba_start as int + i,
                    );
                &&& (r is Ok <==> ok_sizes && ok_range && ok_seal)
                &&& (!ok_sizes ==> (r matches Err(e) && e == DiskError::SizeMismatch))
                &&& (ok_sizes && !ok_range ==> (r matches Err(e) && e
                    == DiskError::TransportError))
                &&& (ok_sizes && ok_range && !ok_seal ==> (r matches Err(e) && (e
                    == DiskError::AuthenticationFailed || e == DiskError::InvalidArgument)))
                &&& (!(ok_sizes && ok_range) ==> final(out)@ == old(out)@)
                &&& (r is Ok ==> forall|i: int|
                    0 <= i < nblocks as int ==> #[trigger] final(out)@.subrange(
                        i * 512,
                        i * 512 + 512,
                    ) == old(self).content_at(old(med)@, lba_start as int + i))
            }),
    {
        if out.len() as u64 != (nblocks as u64) * 512 {
            return Err(DiskError::SizeMismatch);
        }
        let (_, bc_phys) = med.get_capacity();
        let cap_log = logical_block_count_from_physical(bc_phys);
        if (lba_start as u64) + (nblocks as u64) > cap_log as u64 {
            return Err(DiskError::TransportError);
        }
        let ghost s0 = *self;
        let ghost m0 = med@;
        let ghost out_len = out@.len();
        let mut i: u32 = 0;
        while i < nblocks
            invariant
                s0 == *old(self),
                m0 == old(med)@,
                out_len == old(out)@.len(),
                self.wf(),
                self.in_sync(med@),
                self.key() == s0.key(),
                s0.wf(),
                med@.len() == m0.len(),
                medium_wf(m0),
                preserves_logical(s0, m0, *self, med@),
                out@.len() == out_len == nblocks as int * 512,
                out_len <= usize::MAX as int,
                lba_start as int + nblocks as int <= logical_cap(m0),
                cap_log as int == logical_cap(m0),
                0 <= i <= nblocks,
                forall|j: int| 0 <= j < i ==> #[trigger] s0.sealed_at(m0, lba_start as int + j),
                forall|j: int|
                    0 <= j < i ==> #[trigger] out@.subrange(j * 512, j * 512 + 512)
                        == s0.content_at(m0, lba_start as int + j),
            decreases nblocks - i,
        {
            let lba = lba_start + i;
            let ghost l = lba as int;
            proof {
                lemma_num_sectors_bound(med@);
                lemma_phys_in_range(l, num_sectors(med@));
                lemma_phys_mod(l);
            }
            let (data_phys, meta_phys, idx) = map_lba(lba);
            let ghost s_pre = *self;
            let ghost m_pre = med@;
            match self.load_meta(med, meta_phys) {
                Ok(()) => {},
                Err(e) => {
                    proof {
                        assert(false);
                    }
                    return Err(e);
                },
            }
            proof {
                lemma_preserves_trans(s0, m0, s_pre, m_pre, *self, med@);
                assert(self.group_cached(l / 24));
                assert(self.entry_at(med@, l) == self.cache().entries[l % 24]);
                assert(self.entry_at(med@, l) == s0.entry_at(m0, l));
                lemma_preserves_content(s0, m0, *self, med@);
            }
            let entry = match get_entry(&self.cached_meta, idx) {
                Ok(e) => e,
                Err(e) => {
                    proof {
                        assert(false);
                    }
                    return Err(e);
                },
            };
            proof {
                assert(entry@ == self.entry_at(med@, l));
                assert(entry_wf(entry@));
            }
            if entry.is_empty() {
                let z = zero_bytes(512);
                let ghost out_pre = out@;
                copy_into(out, (i as usize) * 512, &z);
                proof {
                    assert(out@.subrange(i as int * 512, i as int * 512 + 512) =~= z@);
                    assert(s0.content_at(m0, l) == zeros(512));
                    assert forall|j: int| 0 <= j < i implies #[trigger] out@.subrange(
                        j * 512,
                        j * 512 + 512,
                    ) == s0.content_at(m0, lba_start as int + j) by {
                        assert(out@.subrange(j * 512, j * 512 + 512) =~= out_pre.subrange(
                            j * 512,
                            j * 512 + 512,
                        ));
                    }
                }
            } else {
                let ct = match med.read_sectors(data_phys, 1) {
                    Ok(v) => v,
                    Err(e) => {
                        proof {
                            assert(false);
                        }
                        return Err(e);
                    },
                };
                proof {
                    assert((data_phys as int + 1) * 512 == data_phys as int * 512 + 512);
                    assert(ct@ == data_at(med@, l));
                    assert(ct@ == data_at(m0, l));
                    assert(ct@.len() == 512);
                }
                match decrypt_sector(&self.gcm, lba, entry.counter, &ct, &entry.tag) {
                    Ok(pt) => {
                        proof {
                            assert(s0.sealed_at(m0, l));
                            assert(pt@ == s0.content_at(m0, l));
                        }
                        let ghost out_pre = out@;
                        copy_into(out, (i as usize) * 512, &pt);
                        proof {
                            assert(out@.subrange(i as int * 512, i as int * 512 + 512) =~= pt@);
                            assert forall|j: int| 0 <= j < i implies #[trigger] out@.subrange(
                                j * 512,
                                j * 512 + 512,
                            ) == s0.content_at(m0, lba_start as int + j) by {
                                assert(out@.subrange(j * 512, j * 512 + 512) =~= out_pre.subrange(
                                    j * 512,
                                    j * 512 + 512,
                                ));
                            }
                        }
                    },
                    Err(e) => {
                        proof {
                            assert(!s0.sealed_at(m0, l));
                        }
                        return Err(e);
                    },
                }
            }
            i = i + 1;
        }
        Ok(())
    }

    /// Writes `nblocks` logical sectors starting at `lba_start` from `data`.
    ///
    /// Each sector is encrypted under the IV and AAD built from its logical
    /// address and the successor of its current counter; the ciphertext is
    /// written to the medium before the metadata that authenticates it, and
    /// the metadata cache is flushed after the last sector. Succeeds exactly
    /// when the input is sized to the request, the range lies within the
    /// logical capacity, and no requested sector's counter is exhausted; on
    /// failure nothing of the effective state has changed.
    pub fn write10(
        &mut self,
        med: &mut StorageMedium,
        lba_start: u32,
        nblocks: u32,
        data: &Vec<u8>,
    ) -> (r: Result<(), DiskError>)
        requires
            old(self).wf(),
            old(self).in_sync(old(med)@),
        ensures
            final(self).wf(),
            final(self).in_sync(final(med)@),
            final(self).key() == old(self).key(),
            final(med)@.len() == old(med)@.len(),
            ({
                let cap = logical_cap(old(med)@);
                let ok_sizes = data@.len() == nblocks as int * 512;
                let ok_range = lba_start as int + nblocks as int <= cap;
                let ok_counters = forall|i: int|
                    0 <= i < nblocks as int ==> (#[trigger] old(self).entry_at(
                        old(med)@,
                        lba_start as int + i,
                    ).counter) < u32::MAX;
                &&& (r is Ok <==> ok_sizes && ok_range && ok_counters)
                &&& (!ok_sizes ==> (r matches Err(e) && e == DiskError::SizeMismatch))
                &&& (ok_sizes && !ok_range ==> (r matches Err(e) && e
                    == DiskError::TransportError))
                &&& (ok_sizes && ok_range && !ok_counters ==> (r matches Err(e) && e
                    == DiskError::CounterOverflow))
                &&& (r is Err ==> preserves_logical(
                    *old(self),
                    old(med)@,
                    *final(self),
                    final(med)@,
                ))
                &&& (r is Ok ==> {
                    &&& !final(self).dirty()
                    &&& (forall|i: int|
                        0 <= i < nblocks as int ==> (#[trigger] final(self).entry_at(
                            final(med)@,
                            lba_start as int + i,
                        ).counter) == next_counter(
                            old(self).entry_at(old(med)@, lba_start as int + i).counter,
                        ))
                    &&& (forall|i: int|
                        0 <= i < nblocks as int ==> (#[trigger] final(self).entry_at(
                            final(med)@,
                            lba_start as int + i,
                        ).counter) > old(self).entry_at(
                            old(med)@,
                            lba_start as int + i,
                        ).counter)
                    &&& (forall|i: int|
                        0 <= i < nblocks as int ==> #[trigger] final(self).sealed_at(
                            final(med)@,
                            lba_start as int + i,
                        ))
                    &&& (forall|i: int|
                        0 <= i < nblocks as int ==> #[trigger] final(self).content_at(
                            final(med)@,
                            lba_start as int + i,
                        ) == data@.subrange(i * 512, i * 512 + 512))
                    &&& (forall|l: int|
                        0 <= l < cap && !(lba_start as int <= l < lba_start as int
                            + nblocks as int) ==> #[trigger] final(self).entry_at(final(med)@, l)
                            == old(self).entry_at(old(med)@, l) && data_at(final(med)@, l)
                            == data_at(old(med)@, l))
                })
            }),
    {
        if data.len() as u64 != (nblocks as u64) * 512 {
            return Err(DiskError::SizeMismatch);
        }
        let (_, bc_phys) = med.get_capacity();
        let cap_log = logical_block_count_from_physical(bc_phys);
        if (lba_start as u64) + (nblocks as u64) > cap_log as u64 {
            return Err(DiskError::TransportError);
        }
        let ghost s0 = *self;
        let ghost m0 = med@;
        let mut i: u32 = 0;
        while i < nblocks
            invariant
                s0 == *old(self),
                m0 == old(med)@,
                self.wf(),
                self.in_sync(med@),
                self.key() == s0.key(),
                s0.wf(),
                med@.len() == m0.len(),
                medium_wf(m0),
                preserves_logical(s0, m0, *self, med@),
                lba_start as int + nblocks as int <= logical_cap(m0),
                cap_log as int == logical_cap(m0),
                data@.len() == nblocks as int * 512,
                0 <= i <= nblocks,
                forall|j: int|
                    0 <= j < i ==> (#[trigger] s0.entry_at(m0, lba_start as int + j).counter)
                        < u32::MAX,
            decreases nblocks - i,
        {
            let lba = lba_start + i;
            let ghost l = lba as int;
            proof {
                lemma_num_sectors_bound(med@);
                lemma_phys_in_range(l, num_sectors(med@));
                lemma_phys_mod(l);
            }
            let (_, meta_phys, idx) = map_lba(lba);
            let ghost s_pre = *self;
            let ghost m_pre = med@;
            match self.load_meta(med, meta_phys) {
                Ok(()) => {},
                Err(e) => {
                    proof {
                        assert(false);
                    }
                    return Err(e);
                },
            }
            proof {
                lemma_preserves_trans(s0, m0, s_pre, m_pre, *self, med@);
                assert(self.group_cached(l / 24));
                assert(self.entry_at(med@, l) == self.cache().entries[l % 24]);
                assert(self.entry_at(med@, l) == s0.entry_at(m0, l));
            }
            let c = self.cached_meta.entries[idx].counter;
            if c == u32::MAX {
                proof {
                    assert(s0.entry_at(m0, l).counter == u32::MAX);
                }
                return Err(DiskError::CounterOverflow);
            }
            i = i + 1;
        }
        let ghost data_len = data@.len();
        let mut i: u32 = 0;
        while i < nblocks
            invariant
                s0 == *old(self),
                m0 == old(med)@,
                self.wf(),
                self.in_sync(med@),
                self.key() == s0.key(),
                s0.wf(),
                med@.len() == m0.len(),
                medium_wf(m0),
                lba_start as int + nblocks as int <= logical_cap(m0),
                data@.len() == nblocks as int * 512,
                data@.len() <= usize::MAX as int,
                0 <= i <= nblocks,
                forall|j: int|
                    0 <= j < nblocks as int ==> (#[trigger] s0.entry_at(
                        m0,
                        lba_start as int + j,
                    ).counter) < u32::MAX,
                forall|j: int|
                    0 <= j < i ==> (#[trigger] self.entry_at(med@, lba_start as int + j).counter)
                        == next_counter(s0.entry_at(m0, lba_start as int + j).counter),
                forall|j: int|
                    0 <= j < i ==> #[trigger] self.sealed_at(med@, lba_start as int + j),
                forall|j: int|
                    0 <= j < i ==> #[trigger] self.content_at(med@, lba_start as int + j)
                        == data@.subrange(j * 512, j * 512 + 512),
                forall|l2: int|
                    0 <= l2 < logical_cap(m0) && !(lba_start as int <= l2 < lba_start as int
                        + i as int) ==> #[trigger] self.entry_at(med@, l2) == s0.entry_at(m0, l2),
                forall|l2: int|
                    0 <= l2 < logical_cap(m0) && !(lba_start as int <= l2 < lba_start as int
                        + i as int) ==> #[trigger] data_at(med@, l2) == data_at(m0, l2),
            decreases nblocks - i,
        {
            let lba = lba_start + i;
            let ghost l = lba as int;
            proof {
                lemma_num_sectors_bound(med@);
                lemma_phys_in_range(l, num_sectors(med@));
                lemma_phys_mod(l);
            }
            let (data_phys, meta_phys, idx) = map_lba(lba);
            let ghost s_a = *self;
            let ghost m_a = med@;
            match self.load_meta(med, meta_phys) {
                Ok(()) => {},
                Err(e) => {
                    proof {
                        assert(false);
                    }
                    return Err(e);
                },
            }
            proof {
                lemma_preserves_content(s_a, m_a, *self, med@);
                assert(self.group_cached(l / 24));
                assert(self.entry_at(med@, l) == self.cache().entries[l % 24]);
                assert(self.entry_at(med@, l) == s0.entry_at(m0, l));
                assert(self.cache().entries.len() == 24);
            }
            let old_c = self.cached_meta.entries[idx].counter;
            proof {
                assert(old_c == self.entry_at(med@, l).counter);
                assert(old_c < u32::MAX);
            }
            let newc = if old_c == 0 {
                1
            } else {
                old_c + 1
            };
            let pt = sub_bytes(data, (i as usize) * 512, (i as usize) * 512 + 512);
            let (ct, tag) = match encrypt_sector(&self.gcm, lba, newc, &pt) {
                Ok(p) => p,
                Err(e) => {
                    proof {
                        assert(false);
                    }
                    return Err(e);
                },
            };
            let ghost s_b = *self;
            let ghost m_b = med@;
            match med.write_sectors(data_phys, &ct) {
                Ok(()) => {},
                Err(e) => {
                    proof {
                        assert((data_phys as int + 1) * 512 <= num_sectors(m_b) * 512);
                        assert(false);
                    }
                    return Err(e);
                },
            }
            proof {
                lemma_single_sector_write(m_b, med@, data_phys as int, ct@);
                assert(sector_bytes(med@, data_phys as int) == ct@);
                // Metadata sectors are untouched by a data-sector write.
                assert forall|g: int| 0 <= g && g * 25 + 24 < num_sectors(m_b) implies
                    #[trigger] sector_bytes(med@, g * 25 + 24) == sector_bytes(
                    m_b,
                    g * 25 + 24,
                ) by {
                    vstd::arithmetic::div_mod::lemma_fundamental_div_mod_converse(
                        g * 25 + 24,
                        25,
                        g,
                        24,
                    );
                    assert(g * 25 + 24 != data_phys as int);
                    assert((g * 25 + 24) * 512 + 512 <= m_b.len()) by (nonlinear_arith)
                        requires
                            g * 25 + 24 < num_sectors(m_b),
                            num_sectors(m_b) * 512 == m_b.len(),
                        ;
                }
                lemma_num_sectors_bound(m_b);
                assert(self.in_sync(med@)) by {
                    if self.cache_lba() is Some {
                        let p = self.cache_lba()->Some_0;
                        if !self.dirty() {
                            assert(sector_bytes(med@, p as int) == sector_bytes(m_b, p as int))
                                by {
                                vstd::arithmetic::div_mod::lemma_fundamental_div_mod(p as int, 25);
                            }
                        }
                    }
                }
                // Entries are everywhere unchanged by the data write.
                assert forall|l2: int| 0 <= l2 < logical_cap(m0) implies #[trigger] self.entry_at(
                    med@,
                    l2,
                ) == s_b.entry_at(m_b, l2) by {
                    lemma_phys_in_range(l2, num_sectors(m_b));
                    lemma_phys_mod(l2);
                }
                // Only this sector's ciphertext changed.
                assert forall|l2: int| 0 <= l2 < logical_cap(m0) && l2 != l implies
                    #[trigger] data_at(med@, l2) == data_at(m_b, l2) by {
                    lemma_phys_in_range(l2, num_sectors(m_b));
                    lemma_phys_mod(l2);
                    lemma_data_phys_injective(l2, l);
                }
                assert(data_at(med@, l) == ct@);
                // Prefix facts survive: entries and other ciphertext are unchanged.
                assert forall|j: int| 0 <= j < i implies #[trigger] self.sealed_at(
                    med@,
                    lba_start as int + j,
                ) by {
                    assert(s_b.sealed_at(m_b, lba_start as int + j));
                    assert(self.entry_at(med@, lba_start as int + j) == s_b.entry_at(
                        m_b,
                        lba_start as int + j,
                    ));
                    assert(data_at(med@, lba_start as int + j) == data_at(
                        m_b,
                        lba_start as int + j,
                    ));
                }
                assert forall|j: int| 0 <= j < i implies #[trigger] self.content_at(
                    med@,
                    lba_start as int + j,
                ) == data@.subrange(j * 512, j * 512 + 512) by {
                    assert(s_b.content_at(m_b, lba_start as int + j) == data@.subrange(
                        j * 512,
                        j * 512 + 512,
                    ));
                    assert(self.entry_at(med@, lba_start as int + j) == s_b.entry_at(
                        m_b,
                        lba_start as int + j,
                    ));
                    assert(data_at(med@, lba_start as int + j) == data_at(
                        m_b,
                        lba_start as int + j,
                    ));
                }
            }
            let ghost s_c = *self;
            let ghost m_c = med@;
            match set_entry(&mut self.cached_meta, idx, newc, &tag) {
                Ok(()) => {},
                Err(e) => {
                    proof {
                        assert(false);
                    }
                    return Err(e);
                },
            }
            self.cached_meta_dirty = true;
            proof {
                assert(self.cache().entries == s_c.cache().entries.update(
                    idx as int,
                    EntryModel { counter: newc, tag: tag@ },
                ));
                // Only this group's cached entries changed, and only at idx.
                assert forall|l2: int|
                    0 <= l2 < logical_cap(m0) && l2 != l implies #[trigger] self.entry_at(
                    med@,
                    l2,
                ) == s_c.entry_at(m_c, l2) by {
                    vstd::arithmetic::div_mod::lemma_fundamental_div_mod(l2, 24);
                    vstd::arithmetic::div_mod::lemma_fundamental_div_mod(l, 24);
                    if l2 / 24 == l / 24 {
                        assert(l2 % 24 != l % 24);
                    }
                }
                assert(self.entry_at(med@, l) == (EntryModel { counter: newc, tag: tag@ }));
                assert(self.sealed_at(med@, l)) by {
                    assert(!entry_is_empty(self.entry_at(med@, l)));
                    assert(data_at(med@, l) == ct@);
                }
                assert(self.content_at(med@, l) == data@.subrange(
                    i as int * 512,
                    i as int * 512 + 512,
                )) by {
                    assert(pt@ == data@.subrange(i as int * 512, i as int * 512 + 512));
                }
                // Prefix facts survive the entry update.
                assert forall|j: int| 0 <= j < i implies #[trigger] self.sealed_at(
                    med@,
                    lba_start as int + j,
                ) by {
                    assert(self.entry_at(med@, lba_start as int + j) == s_c.entry_at(
                        m_c,
                        lba_start as int + j,
                    ));
                    assert(s_c.sealed_at(m_c, lba_start as int + j));
                }
                assert forall|j: int| 0 <= j < i implies #[trigger] self.content_at(
                    med@,
                    lba_start as int + j,
                ) == data@.subrange(j * 512, j * 512 + 512) by {
                    assert(self.entry_at(med@, lba_start as int + j) == s_c.entry_at(
                        m_c,
                        lba_start as int + j,
                    ));
                    assert(s_c.content_at(m_c, lba_start as int + j) == data@.subrange(
                        j * 512,
                        j * 512 + 512,
                    ));
                }
            }
            i = i + 1;
        }
        let ghost s_d = *self;
        let ghost m_d = med@;
        match self.flush_meta(med) {
            Ok(()) => {},
            Err(e) => {
                proof {
                    assert(false);
                }
                return Err(e);
            },
        }
        proof {
            lemma_preserves_content(s_d, m_d, *self, med@);
        }
        Ok(())
    }

    /// Flushes pending metadata, then asks the medium to flush.
    pub fn flush_all(&mut self, med: &mut StorageMedium) -> (r: Result<(), DiskError>)
        requires
            old(self).wf(),
            old(self).in_sync(old(med)@),
        ensures
            final(self).wf(),
            final(self).in_sync(final(med)@),
            final(self).key() == old(self).key(),
            !final(self).dirty(),
            r is Ok,
            preserves_logical(*old(self), old(med)@, *final(self), final(med)@),
    {
        match self.flush_meta(med) {
            Ok(()) => {},
            Err(e) => {
                proof {
                    assert(false);
                }
                return Err(e);
            },
        }
        med.flush()
    }
}

/// Two buffers of `n` whole sectors that agree on every sector agree
/// outright.
pub proof fn lemma_sectorwise_equal(a: Seq<u8>, b: Seq<u8>, n: int)
    requires
        0 <= n,
        a.len() == n * 512,
        b.len() == n * 512,
        forall|i: int|
            0 <= i < n ==> #[trigger] a.subrange(i * 512, i * 512 + 512) == b.subrange(
                i * 512,
                i * 512 + 512,
            ),
    ensures
        a == b,
{
    assert forall|k: int| 0 <= k < a.len() implies a[k] == b[k] by {
        let i = k / 512;
        let o = k % 512;
        vstd::arithmetic::div_mod::lemma_fundamental_div_mod(k, 512);
        assert(i < n) by {
            if i >= n {
                assert(i * 512 >= n * 512) by (nonlinear_arith)
                    requires
                        i >= n,
                ;
            }
        }
        assert(a.subrange(i * 512, i * 512 + 512)[o] == a[k]);
        assert(b.subrange(i * 512, i * 512 + 512)[o] == b[k]);
    }
    assert(a =~= b);
}

/// Write/read round trip: in a state where every sector of a range is sealed
/// and holds the written data — exactly what a successful write establishes —
/// a read of that range meets its success condition, and what it returns is
/// the written data, byte for byte.
pub proof fn lemma_write_read_round_trip(
    s: EncryptedDisk,
    m: Seq<u8>,
    lba_start: u32,
    nblocks: u32,
    data: Seq<u8>,
    out: Seq<u8>,
)
    requires
        data.len() == nblocks as int * 512,
        out.len() == nblocks as int * 512,
        lba_start as int + nblocks as int <= logical_cap(m),
        forall|i: int|
            0 <= i < nblocks as int ==> #[trigger] s.sealed_at(m, lba_start as int + i),
        forall|i: int|
            0 <= i < nblocks as int ==> #[trigger] s.content_at(m, lba_start as int + i)
                == data.subrange(i * 512, i * 512 + 512),
        forall|i: int|
            0 <= i < nblocks as int ==> #[trigger] out.subrange(i * 512, i * 512 + 512)
                == s.content_at(m, lba_start as int + i),
    ensures
        out == data,
{
    lemma_sectorwise_equal(out, data, nblocks as int);
}

/// A freshly initialised (all-zero) medium exposes all-zero logical
/// contents: with nothing cached, every entry is empty, every sector is
/// sealed, and every sector reads as zeros.
pub proof fn lemma_fresh_medium_reads_zero(s: EncryptedDisk, m: Seq<u8>, l: int)
    requires
        s.cache_lba() is None,
        medium_wf(m),
        m == zeros(m.len() as int),
        0 <= l < logical_cap(m),
    ensures
        entry_is_empty(s.entry_at(m, l)),
        s.sealed_at(m, l),
        s.content_at(m, l) == zeros(512),
{
    lemma_num_sectors_bound(m);
    lemma_phys_in_range(l, num_sectors(m));
    lemma_phys_mod(l);
    vstd::arithmetic::div_mod::lemma_fundamental_div_mod(l, 24);
    let p = spec_meta_phys(l);
    assert(p * 512 + 512 <= m.len()) by (nonlinear_arith)
        requires
            p < num_sectors(m),
            num_sectors(m) * 512 == m.len(),
            0 <= p,
    ;
    assert(sector_bytes(m, p)[0] == 0);
    assert(!crate::meta::decode_ok(sector_bytes(m, p)));
    assert(s.group_meta(m, l / 24) == crate::meta::default_meta());
    assert(0 <= l % 24 < 24);
    crate::meta::lemma_default_meta_wf();
    assert(entry_is_empty(s.entry_at(m, l)));
}

} // verus!
