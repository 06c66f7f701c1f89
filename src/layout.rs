//! A validated layout over a borrowed region table, and the erase blocks and ranges derived
//! from it.
use vstd::prelude::*;

use crate::region::Region;
use crate::table::{
    block_start, blocks_before, bytes_before, covers_addr, lemma_blocks_monotonic,
    lemma_blocks_within_bytes, lemma_bytes_within_span, locates_addr, step_before, table_accepted,
    total_blocks, valid_table,
};

verus! {

/// The region table is empty, or two adjacent regions overlap or are out of order.
#[derive(Debug, Clone, Copy, PartialEq, Eq, Structural)]
pub struct InvalidLayout;

/// An ordered, non-overlapping view over a table of regions.
///
/// `len()` counts the bytes of the regions alone, while `addr_end() - addr_start()` also counts
/// the gaps that may lie between regions: the two differ whenever there is a gap.
#[derive(Debug, Clone, Copy)]
pub struct FlashLayout<'a> {
    /// The region table, borrowed from the caller.
    pub regions: &'a [Region],
}

impl<'a> FlashLayout<'a> {
    /// The layout rests on a table that construction accepts, of valid regions.
    pub open spec fn wf(&self) -> bool {
        valid_table(self.regions@)
    }

    /// Start address of the first region.
    pub open spec fn spec_addr_start(&self) -> int {
        self.regions@[0].addr as int
    }

    /// End address of the last region.
    pub open spec fn spec_addr_end(&self) -> int {
        self.regions@.last().spec_addr_end()
    }

    /// Sum of the lengths of all regions.
    pub open spec fn spec_len(&self) -> nat {
        bytes_before(self.regions@, self.regions@.len() as int)
    }

    /// Builds a layout over `regions`, which must be non-empty and listed in address order
    /// without overlap.
    pub fn new(regions: &'a [Region]) -> (r: Result<FlashLayout<'a>, InvalidLayout>)
        requires
            forall|i: int| 0 <= i < regions@.len() ==> #[trigger] regions@[i].valid(),
        ensures
            r is Ok <==> table_accepted(regions@),
            r matches Ok(l) ==> {
                &&& l.regions@ == regions@
                &&& l.wf()
                &&& l.spec_addr_start() == regions@[0].addr
                &&& l.spec_addr_end() == regions@[regions@.len() - 1].spec_addr_end()
            },
    {
        let s = FlashLayout { regions };
        match s.validate_regions() {
            Ok(()) => Ok(s),
            Err(e) => Err(e),
        }
    }

    fn validate_regions(&self) -> (r: Result<(), InvalidLayout>)
        requires
            forall|i: int| 0 <= i < self.regions@.len() ==> #[trigger] self.regions@[i].valid(),
        ensures
            r is Ok <==> table_accepted(self.regions@),
    {
        if self.regions.len() == 0 {
            return Err(InvalidLayout);
        }
        let n: usize = self.regions.len();
        let mut i: usize = 0;
        while i + 1 < n
            invariant
                n == self.regions@.len(),
                0 <= i < n,
                forall|j: int| 0 <= j < self.regions@.len() ==> #[trigger] self.regions@[j].valid(),
                forall|j: int|
                    0 <= j < i ==> #[trigger] self.regions@[j].spec_addr_end()
                        <= self.regions@[j + 1].addr,
            decreases self.regions@.len() - i,
        {
            assert(self.regions@[i as int].valid());
            if self.regions[i].addr_end() > self.regions[i + 1].addr_start() {
                return Err(InvalidLayout);
            }
            i += 1;
        }
        Ok(())
    }

    pub fn addr_start(&self) -> (r: u64)
        requires
            self.wf(),
        ensures
            r == self.spec_addr_start(),
    {
        self.regions[0].addr_start()
    }

    pub fn addr_end(&self) -> (r: u64)
        requires
            self.wf(),
        ensures
            r == self.spec_addr_end(),
    {
        assert(self.regions@.last().valid());
        self.regions[self.regions.len() - 1].addr_end()
    }

    /// Sum of the lengths of all regions; gaps between regions are not counted.
    pub fn len(&self) -> (r: u64)
        requires
            self.wf(),
        ensures
            r == self.spec_len(),
    {
        let ghost rs = self.regions@;
        let mut s: u64 = 0;
        let mut i: usize = 0;
        while i < self.regions.len()
            invariant
                self.wf(),
                rs == self.regions@,
                0 <= i <= rs.len(),
                s == bytes_before(rs, i as int),
            decreases rs.len() - i,
        {
            proof {
                lemma_bytes_within_span(rs, i + 1);
                assert(rs[i as int].valid());
            }
            s = s + self.regions[i].len();
            i += 1;
        }
        s
    }

    /// Finds the erase block that holds `addr`, and how many bytes into that block `addr` lies.
    /// Addresses before the first region, in a gap between regions, or past the last region are
    /// not found.
    pub fn find_eb_by_addr(&self, addr: u64) -> (r: Option<(EraseBlock<'a>, u32)>)
        requires
            self.wf(),
        ensures
            r is None <==> !covers_addr(self.regions@, addr as int),
            r matches Some((eb, rem)) ==> {
                &&& eb.wf()
                &&& eb.regions() == self.regions@
                &&& locates_addr(self.regions@, addr as int, eb.idx(), eb.offs(), rem as int)
                &&& eb.spec_addr_start() <= addr < eb.spec_addr_end()
                &&& rem == addr - eb.spec_addr_start()
            },
    {
        let ghost rs = self.regions@;
        let mut i: usize = 0;
        while i < self.regions.len()
            invariant
                self.wf(),
                rs == self.regions@,
                0 <= i <= rs.len(),
                forall|j: int| 0 <= j < i ==> !#[trigger] rs[j].spec_contains(addr as int),
            decreases rs.len() - i,
        {
            let r = self.regions[i];
            assert(rs[i as int].valid());
            if r.contains_addr(addr) {
                let addr_in_r = addr - r.addr_start();
                let eb_n = addr_in_r / r.eb_bytes as u64;
                let eb_r = addr_in_r % r.eb_bytes as u64;
                proof {
                    let b = r.eb_bytes as int;
                    let d = addr_in_r as int;
                    let q = eb_n as int;
                    vstd::arithmetic::div_mod::lemma_fundamental_div_mod(d, b);
                    assert(q < r.eb_count) by (nonlinear_arith)
                        requires
                            b > 0,
                            0 <= d < b * r.eb_count,
                            d == b * q + d % b,
                            0 <= d % b,
                    ;
                }
                let eb = EraseBlock { layout: *self, region_idx: i, eb_offs_in_region: eb_n as u32 };
                return Some((eb, eb_r as u32));
            }
            i += 1;
        }
        None
    }

    /// Finds the erase block with global number `eb_num`. Erase blocks are numbered across the
    /// whole layout, region by region in table order, starting at zero.
    pub fn find_eb_by_eb_num(&self, eb_num: u32) -> (r: Option<EraseBlock<'a>>)
        requires
            self.wf(),
        ensures
            r is Some <==> eb_num < total_blocks(self.regions@),
            r matches Some(eb) ==> {
                &&& eb.wf()
                &&& eb.regions() == self.regions@
                &&& blocks_before(self.regions@, eb.idx()) + eb.offs() == eb_num
            },
    {
        let ghost rs = self.regions@;
        let mut eb_a: u64 = 0;
        let mut i: usize = 0;
        while i < self.regions.len()
            invariant
                self.wf(),
                rs == self.regions@,
                0 <= i <= rs.len(),
                eb_a == blocks_before(rs, i as int),
                eb_num >= eb_a,
            decreases rs.len() - i,
        {
            let r = self.regions[i];
            proof {
                lemma_blocks_within_bytes(rs, i + 1);
                lemma_bytes_within_span(rs, i + 1);
                lemma_blocks_monotonic(rs, i + 1, rs.len() as int);
                assert(rs[i as int].valid());
            }
            let eb_n = eb_a + r.eb_count as u64;
            if (eb_num as u64) < eb_n {
                let eb = EraseBlock {
                    layout: *self,
                    region_idx: i,
                    eb_offs_in_region: (eb_num as u64 - eb_a) as u32,
                };
                return Some(eb);
            }
            eb_a = eb_n;
            i += 1;
        }
        None
    }
}

/// A single erase block within a region of a layout.
#[derive(Debug, Clone, Copy)]
pub struct EraseBlock<'a> {
    layout: FlashLayout<'a>,
    region_idx: usize,
    eb_offs_in_region: u32,
}

impl<'a> EraseBlock<'a> {
    /// The region table of the layout that the erase block belongs to.
    pub closed spec fn regions(&self) -> Seq<Region> {
        self.layout.regions@
    }

    /// Index of the region that holds the erase block.
    pub closed spec fn idx(&self) -> int {
        self.region_idx as int
    }

    /// Number of erase blocks from the start of the region to this one.
    pub closed spec fn offs(&self) -> int {
        self.eb_offs_in_region as int
    }

    /// The erase block names an existing block of a valid layout.
    pub open spec fn wf(&self) -> bool {
        &&& valid_table(self.regions())
        &&& 0 <= self.idx() < self.regions().len()
        &&& 0 <= self.offs() < self.regions()[self.idx()].eb_count
    }

    pub open spec fn spec_addr_start(&self) -> int {
        block_start(self.regions(), self.idx(), self.offs())
    }

    /// One past the last address of the erase block.
    pub open spec fn spec_addr_end(&self) -> int {
        self.spec_addr_start() + self.regions()[self.idx()].eb_bytes
    }

    /// The erase block lies within its region, and its end address is representable.
    pub proof fn lemma_within_region(&self)
        requires
            self.wf(),
        ensures
            self.regions()[self.idx()].addr <= self.spec_addr_start(),
            self.spec_addr_end() <= self.regions()[self.idx()].spec_addr_end(),
            self.spec_addr_end() <= u64::MAX,
    {
        let r = self.regions()[self.idx()];
        assert(r.valid());
        let o = self.offs();
        assert(r.eb_bytes * o + r.eb_bytes <= r.eb_bytes * r.eb_count) by (nonlinear_arith)
            requires
                0 <= o < r.eb_count,
                r.eb_bytes > 0,
        ;
        assert(0 <= r.eb_bytes * o) by (nonlinear_arith)
            requires
                0 <= o,
        ;
    }

    pub fn region(&self) -> (r: &'a Region)
        requires
            self.wf(),
        ensures
            *r == self.regions()[self.idx()],
    {
        &self.layout.regions[self.region_idx]
    }

    /// Number of erase blocks from the start of the region to where this erase block is located.
    pub fn eb_offs_in_region(&self) -> (r: u32)
        ensures
            r == self.offs(),
    {
        self.eb_offs_in_region
    }

    /// First address in the erase block.
    ///
    /// `addr_start()` and `addr_end()` together give a range that is inclusive on the left and
    /// exclusive on the right.
    pub fn addr_start(&self) -> (r: u64)
        requires
            self.wf(),
        ensures
            r == self.spec_addr_start(),
    {
        proof {
            self.lemma_within_region();
        }
        let r = self.region();
        r.addr_start() + r.eb_bytes as u64 * self.eb_offs_in_region as u64
    }

    /// End address of this erase block, one byte past the last byte inside it.
    pub fn addr_end(&self) -> (r: u64)
        requires
            self.wf(),
        ensures
            r == self.spec_addr_end(),
    {
        proof {
            self.lemma_within_region();
        }
        self.addr_start() + self.region().eb_bytes as u64
    }

    /// Number of bytes in this erase block.
    pub fn len(&self) -> (r: u32)
        requires
            self.wf(),
        ensures
            r == self.regions()[self.idx()].eb_bytes,
    {
        self.region().eb_bytes
    }
}

/// A flat sequence of erase blocks, crossing region boundaries, that ends before an address.
///
/// The range keeps a cursor on an erase block. Each call of `next` moves the cursor to the
/// following erase block (the next one in its region, or the first one of the next region) and
/// hands it out, as long as that block starts before the range's end address. Once exhausted, a
/// range stays exhausted.
#[derive(Debug, Clone, Copy)]
pub struct Range<'a> {
    cursor: EraseBlock<'a>,
    addr_end: u64,
}

impl<'a> Range<'a> {
    /// The erase block that the cursor is on.
    pub closed spec fn cursor(&self) -> EraseBlock<'a> {
        self.cursor
    }

    /// The exclusive end address of the range.
    pub closed spec fn end(&self) -> int {
        self.addr_end as int
    }

    /// The cursor is on an existing erase block of a valid layout.
    pub open spec fn wf(&self) -> bool {
        self.cursor().wf()
    }

    /// A range whose cursor is on `first_eb`, ending before `addr_end`. The first call of `next`
    /// hands out the erase block after `first_eb`.
    pub fn new(first_eb: EraseBlock<'a>, addr_end: u64) -> (r: Range<'a>)
        requires
            first_eb.wf(),
        ensures
            r.wf(),
            r.cursor() == first_eb,
            r.end() == addr_end,
    {
        Range { cursor: first_eb, addr_end }
    }

    /// Start address of the erase block that the cursor is on.
    pub fn addr_start(&self) -> (r: u64)
        requires
            self.wf(),
        ensures
            r == self.cursor().spec_addr_start(),
    {
        self.cursor.addr_start()
    }

    pub fn addr_end(&self) -> (r: u64)
        ensures
            r == self.end(),
    {
        self.addr_end
    }

    /// Moves to the erase block after the cursor and returns it, or returns `None` and stays put
    /// when there is no such block or it starts at or past the end address.
    pub fn next(&mut self) -> (r: Option<EraseBlock<'a>>)
        requires
            old(self).wf(),
        ensures
            final(self).wf(),
            r is Some <==> step_before(
                old(self).cursor().regions(),
                old(self).cursor().idx(),
                old(self).cursor().offs(),
                old(self).end(),
            ) is Some,
            r matches Some(eb) ==> {
                &&& step_before(
                    old(self).cursor().regions(),
                    old(self).cursor().idx(),
                    old(self).cursor().offs(),
                    old(self).end(),
                ) == Some((eb.idx(), eb.offs()))
                &&& eb.wf()
                &&& eb.regions() == old(self).cursor().regions()
                &&& final(self).cursor() == eb
                &&& final(self).end() == old(self).end()
            },
            r is None ==> *final(self) == *old(self),
    {
        let cur = self.cursor;
        let regions = cur.layout.regions;
        let idx = cur.region_idx;
        let offs = cur.eb_offs_in_region;
        let (next_idx, next_offs) = if offs + 1 < regions[idx].eb_count {
            (idx, offs + 1)
        } else if idx + 1 < regions.len() {
            (idx + 1, 0u32)
        } else {
            return None;
        };
        assert(regions@[next_idx as int].valid());
        let eb = EraseBlock { layout: cur.layout, region_idx: next_idx, eb_offs_in_region: next_offs };
        if eb.addr_start() >= self.addr_end {
            return None;
        }
        self.cursor = eb;
        Some(eb)
    }
}

} // verus!
