//! Layout mapper: the bijection between logical sector indices and physical
//! data/metadata sector positions.
//!
//! Physical sectors are arranged in groups of `G + 1` sectors: `G` ciphertext
//! sectors followed by one metadata sector that holds their counters and tags.

use vstd::prelude::*;
use vstd::arithmetic::div_mod::{
    lemma_fundamental_div_mod, lemma_fundamental_div_mod_converse,
};

use crate::errors::DiskError;

verus! {

/// Bytes per sector.
pub const SECTOR_SIZE: usize = 512;

/// Data sectors per group.
pub const G: u32 = 24;

/// Physical sectors per group: `G` data sectors plus one metadata sector.
pub const GROUP_PHYS: u32 = 25;

/// Physical position of the ciphertext sector backing logical sector `l`.
pub open spec fn spec_data_phys(l: int) -> int {
    (l / 24) * 25 + l % 24
}

/// Physical position of the metadata sector of logical sector `l`'s group.
pub open spec fn spec_meta_phys(l: int) -> int {
    (l / 24) * 25 + 24
}

/// Logical index `l` maps to physical positions that fit in `u32`.
pub open spec fn lba_fits(l: int) -> bool {
    0 <= l && spec_meta_phys(l) <= u32::MAX as int
}

/// Physical sectors needed to back `l` logical sectors.
pub open spec fn spec_phys_needed(l: int) -> int {
    ((l + 23) / 24) * 25
}

/// Logical sectors exposed by a medium of `p` physical sectors.
pub open spec fn spec_logical_count(p: int) -> int {
    (p / 25) * 24
}

/// Maps a logical sector index to its ciphertext position, its group's
/// metadata position, and its index within the group.
pub fn map_lba(lba_logical: u32) -> (r: (u32, u32, usize))
    requires
        lba_fits(lba_logical as int),
    ensures
        r.0 as int == spec_data_phys(lba_logical as int),
        r.1 as int == spec_meta_phys(lba_logical as int),
        r.2 as int == lba_logical as int % 24,
        r.0 < r.1,
{
    let group = lba_logical / G;
    let idx = (lba_logical % G) as usize;
    proof {
        lemma_fundamental_div_mod(lba_logical as int, 24);
    }
    let base = group * GROUP_PHYS;
    let data_lba_phys = base + (idx as u32);
    let meta_lba_phys = base + G;
    (data_lba_phys, meta_lba_phys, idx)
}

/// Logical block count exposed by `physical_bc` physical blocks: only whole
/// groups count, and each contributes its `G` data sectors.
pub fn logical_block_count_from_physical(physical_bc: u32) -> (r: u32)
    ensures
        r as int == spec_logical_count(physical_bc as int),
        r <= physical_bc,
{
    proof {
        lemma_fundamental_div_mod(physical_bc as int, 25);
    }
    let groups = physical_bc / GROUP_PHYS;
    groups * G
}

/// Physical block count needed to back `logical_bc` logical blocks: a whole
/// group for every started group of `G`.
pub fn physical_block_count_needed_for_logical(logical_bc: u32) -> (r: u32)
    requires
        spec_phys_needed(logical_bc as int) <= u32::MAX as int,
    ensures
        r as int == spec_phys_needed(logical_bc as int),
{
    proof {
        lemma_fundamental_div_mod(logical_bc as int + 23, 24);
    }
    let groups = (logical_bc + (G - 1)) / G;
    groups * GROUP_PHYS
}

/// Accepts exactly the fixed sector size.
pub fn validate_block_size(block_size: u32) -> (r: Result<(), DiskError>)
    ensures
        r matches Ok(()) <==> block_size == 512,
        r matches Err(e) ==> e == DiskError::SizeMismatch,
{
    if block_size as usize != SECTOR_SIZE {
        return Err(DiskError::SizeMismatch);
    }
    Ok(())
}

/// The mapper sends logical index `group * G + g` to data position
/// `group * (G + 1) + g` and metadata position `group * (G + 1) + G`.
pub proof fn lemma_map_group(group: int, g: int)
    requires
        0 <= group,
        0 <= g < 24,
    ensures
        spec_data_phys(group * 24 + g) == group * 25 + g,
        spec_meta_phys(group * 24 + g) == group * 25 + 24,
        (group * 24 + g) % 24 == g,
{
    lemma_fundamental_div_mod_converse(group * 24 + g, 24, group, g);
}

/// Converting a logical count to the physical count that backs it and back
/// never loses capacity: the exposed logical count covers the request.
pub proof fn lemma_logical_physical_round_trip(l: int)
    requires
        0 <= l,
    ensures
        spec_logical_count(spec_phys_needed(l)) >= l,
{
    let groups = (l + 23) / 24;
    lemma_fundamental_div_mod(l + 23, 24);
    lemma_fundamental_div_mod_converse(groups * 25, 25, groups, 0);
    assert(spec_logical_count(spec_phys_needed(l)) == groups * 24);
}

/// Every logical index below the exposed logical count of a `p`-sector medium
/// maps to physical positions inside the medium.
pub proof fn lemma_phys_in_range(l: int, p: int)
    requires
        0 <= l < spec_logical_count(p),
    ensures
        0 <= spec_data_phys(l) < spec_meta_phys(l) < p,
{
    let g = l / 24;
    let q = p / 25;
    lemma_fundamental_div_mod(l, 24);
    lemma_fundamental_div_mod(p, 25);
    // l < q * 24 and l == 24 * g + l % 24, so g < q, hence 25 * g + 24 < 25 * q <= p.
    assert(g < q) by {
        if g >= q {
            assert(24 * g >= 24 * q) by (nonlinear_arith)
                requires g >= q;
            assert(l >= 24 * q);
        }
    }
    assert(25 * g + 25 <= 25 * q) by (nonlinear_arith)
        requires g < q;
}

/// Metadata positions sit at the end of their group; data positions never do.
pub proof fn lemma_phys_mod(l: int)
    requires
        0 <= l,
    ensures
        spec_meta_phys(l) % 25 == 24,
        spec_data_phys(l) % 25 == l % 24,
        spec_data_phys(l) % 25 != 24,
{
    lemma_fundamental_div_mod(l, 24);
    lemma_fundamental_div_mod_converse(spec_meta_phys(l), 25, l / 24, 24);
    lemma_fundamental_div_mod_converse(spec_data_phys(l), 25, l / 24, l % 24);
}

/// Distinct logical sectors use distinct ciphertext positions.
pub proof fn lemma_data_phys_injective(l1: int, l2: int)
    requires
        0 <= l1,
        0 <= l2,
        l1 != l2,
    ensures
        spec_data_phys(l1) != spec_data_phys(l2),
{
    lemma_fundamental_div_mod(l1, 24);
    lemma_fundamental_div_mod(l2, 24);
    if spec_data_phys(l1) == spec_data_phys(l2) {
        lemma_fundamental_div_mod_converse(spec_data_phys(l1), 25, l1 / 24, l1 % 24);
        lemma_fundamental_div_mod_converse(spec_data_phys(l2), 25, l2 / 24, l2 % 24);
        assert(l1 % 24 == l2 % 24);
        assert(l1 / 24 == l2 / 24);
    }
}

} // verus!
