use vstd::prelude::*;

verus! {

/// A region within a flash device which contains a particular size and number of erase blocks.
#[derive(Debug, Clone, Copy, PartialEq, Eq, Structural, PartialOrd, Ord)]
pub struct Region {
    /// base address of this region (address of the first erase block)
    pub addr: u64,
    /// Number of bytes per erase block in this region
    pub eb_bytes: u32,
    /// Number of erase blocks within this region
    pub eb_count: u32,
}

impl Region {
    /// Number of bytes that the region spans.
    pub open spec fn spec_len(&self) -> nat {
        self.eb_bytes as nat * self.eb_count as nat
    }

    /// One past the last address of the region.
    pub open spec fn spec_addr_end(&self) -> int {
        self.addr + self.spec_len()
    }

    /// Whether `a` lies inside the region.
    pub open spec fn spec_contains(&self, a: int) -> bool {
        self.addr <= a < self.spec_addr_end()
    }

    /// A region that can stand in a layout: it holds at least one non-empty erase block, and its
    /// end address is representable.
    pub open spec fn valid(&self) -> bool {
        &&& self.eb_bytes > 0
        &&& self.eb_count > 0
        &&& self.spec_addr_end() <= u64::MAX
    }

    pub fn addr_start(&self) -> (r: u64)
        ensures
            r == self.addr,
    {
        self.addr
    }

    pub fn addr_end(&self) -> (r: u64)
        requires
            self.spec_addr_end() <= u64::MAX,
        ensures
            r == self.spec_addr_end(),
    {
        self.addr + self.len()
    }

    pub fn len(&self) -> (r: u64)
        ensures
            r == self.spec_len(),
    {
        proof {
            vstd::arithmetic::mul::lemma_mul_upper_bound(
                self.eb_bytes as int,
                u32::MAX as int,
                self.eb_count as int,
                u32::MAX as int,
            );
        }
        self.eb_bytes as u64 * self.eb_count as u64
    }

    pub fn contains_addr(&self, addr: u64) -> (r: bool)
        requires
            self.spec_addr_end() <= u64::MAX,
        ensures
            r == self.spec_contains(addr as int),
    {
        addr < self.addr_end() && addr >= self.addr_start()
    }
}

} // verus!
