//! The mathematical model of a region table: validity, address coverage, and the global
//! numbering of erase blocks.
use vstd::prelude::*;

use crate::region::Region;

verus! {

/// Adjacent regions are listed in address order and do not overlap; gaps are allowed.
pub open spec fn regions_ordered(rs: Seq<Region>) -> bool {
    forall|i: int| 0 <= i < rs.len() - 1 ==> #[trigger] rs[i].spec_addr_end() <= rs[i + 1].addr
}

/// The table is accepted by layout construction: non-empty and ordered.
pub open spec fn table_accepted(rs: Seq<Region>) -> bool {
    rs.len() > 0 && regions_ordered(rs)
}

/// Every region of the table is a valid region.
pub open spec fn regions_valid(rs: Seq<Region>) -> bool {
    forall|i: int| 0 <= i < rs.len() ==> #[trigger] rs[i].valid()
}

/// A table that a layout can be built on.
pub open spec fn valid_table(rs: Seq<Region>) -> bool {
    table_accepted(rs) && regions_valid(rs)
}

/// Bytes held by the first `k` regions.
pub open spec fn bytes_before(rs: Seq<Region>, k: int) -> nat
    decreases k,
{
    if k <= 0 {
        0
    } else {
        bytes_before(rs, k - 1) + rs[k - 1].spec_len()
    }
}

/// Erase blocks held by the first `k` regions: the global number of the first erase block of
/// region `k`.
pub open spec fn blocks_before(rs: Seq<Region>, k: int) -> nat
    decreases k,
{
    if k <= 0 {
        0
    } else {
        blocks_before(rs, k - 1) + rs[k - 1].eb_count as nat
    }
}

/// Erase blocks in the whole table.
pub open spec fn total_blocks(rs: Seq<Region>) -> nat {
    blocks_before(rs, rs.len() as int)
}

/// Some region of the table holds address `a`.
pub open spec fn covers_addr(rs: Seq<Region>, a: int) -> bool {
    exists|i: int| 0 <= i < rs.len() && #[trigger] rs[i].spec_contains(a)
}

/// First address of erase block `offs` of region `idx`.
pub open spec fn block_start(rs: Seq<Region>, idx: int, offs: int) -> int {
    rs[idx].addr + rs[idx].eb_bytes * offs
}

/// Looking up address `a` lands `rem` bytes into erase block `offs` of region `idx`: `idx` is the
/// first region holding `a`, and `offs` and `rem` split `a`'s distance from its start.
pub open spec fn locates_addr(rs: Seq<Region>, a: int, idx: int, offs: int, rem: int) -> bool {
    &&& 0 <= idx < rs.len()
    &&& rs[idx].spec_contains(a)
    &&& forall|j: int| 0 <= j < idx ==> !#[trigger] rs[j].spec_contains(a)
    &&& offs == (a - rs[idx].addr) / (rs[idx].eb_bytes as int)
    &&& rem == (a - rs[idx].addr) % (rs[idx].eb_bytes as int)
}

/// The erase block that follows erase block `offs` of region `idx`, if any: the next one in the
/// region, or else the first one of the next region.
pub open spec fn next_block(rs: Seq<Region>, idx: int, offs: int) -> Option<(int, int)> {
    if offs + 1 < rs[idx].eb_count {
        Some((idx, offs + 1))
    } else if idx + 1 < rs.len() {
        Some((idx + 1, 0))
    } else {
        None
    }
}

/// The erase block that follows erase block `offs` of region `idx` and starts before `end`.
pub open spec fn step_before(rs: Seq<Region>, idx: int, offs: int, end: int) -> Option<(int, int)> {
    match next_block(rs, idx, offs) {
        Some((i, o)) => if block_start(rs, i, o) < end {
            Some((i, o))
        } else {
            None
        },
        None => None,
    }
}

/// In an ordered table every region ends at or before the start of every later region.
pub proof fn lemma_ordered_apart(rs: Seq<Region>, i: int, j: int)
    requires
        regions_ordered(rs),
        0 <= i < j < rs.len(),
    ensures
        rs[i].spec_addr_end() <= rs[j].addr,
    decreases j - i,
{
    if j > i + 1 {
        lemma_ordered_apart(rs, i, j - 1);
        assert(rs[j - 1].spec_addr_end() <= rs[j].addr);
    }
}

/// The first `k` regions of an ordered table hold no more bytes than the span from the first
/// region's start to the end of region `k - 1`.
pub proof fn lemma_bytes_within_span(rs: Seq<Region>, k: int)
    requires
        regions_ordered(rs),
        1 <= k <= rs.len(),
    ensures
        bytes_before(rs, k) <= rs[k - 1].spec_addr_end() - rs[0].addr,
    decreases k,
{
    if k > 1 {
        lemma_bytes_within_span(rs, k - 1);
        assert(rs[k - 2].spec_addr_end() <= rs[k - 1].addr);
    } else {
        assert(bytes_before(rs, 0) == 0);
    }
}

/// Where every erase block holds at least one byte, there are no more erase blocks than bytes.
pub proof fn lemma_blocks_within_bytes(rs: Seq<Region>, k: int)
    requires
        regions_valid(rs),
        0 <= k <= rs.len(),
    ensures
        blocks_before(rs, k) <= bytes_before(rs, k),
    decreases k,
{
    if k > 0 {
        lemma_blocks_within_bytes(rs, k - 1);
        let r = rs[k - 1];
        assert(r.valid());
        assert(r.eb_count as nat <= r.eb_bytes as nat * r.eb_count as nat) by (nonlinear_arith)
            requires
                r.eb_bytes > 0,
        ;
    }
}

/// The global numbers of erase blocks grow with the region index.
pub proof fn lemma_blocks_monotonic(rs: Seq<Region>, i: int, j: int)
    requires
        0 <= i <= j,
    ensures
        blocks_before(rs, i) <= blocks_before(rs, j),
    decreases j - i,
{
    if j > i {
        lemma_blocks_monotonic(rs, i, j - 1);
    }
}

} // verus!
