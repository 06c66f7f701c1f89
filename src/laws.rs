//! Properties that relate the layout's operations to each other.
use vstd::prelude::*;

use crate::layout::{EraseBlock, FlashLayout};
use crate::table::{covers_addr, lemma_bytes_within_span, lemma_ordered_apart, locates_addr};

verus! {

/// An address before the start or at or past the end of a layout lies in no region, so looking
/// it up by address finds nothing.
pub proof fn lemma_outside_span_not_covered(l: FlashLayout, a: int)
    requires
        l.wf(),
        a < l.spec_addr_start() || a >= l.spec_addr_end(),
    ensures
        !covers_addr(l.regions@, a),
{
    let rs = l.regions@;
    let last = rs.len() - 1;
    assert forall|i: int| 0 <= i < rs.len() implies !#[trigger] rs[i].spec_contains(a) by {
        if i > 0 {
            lemma_ordered_apart(rs, 0, i);
        }
        if i < last {
            lemma_ordered_apart(rs, i, last);
        }
    }
}

/// Looking up the start address of any erase block of a layout finds that same erase block, at
/// remainder zero.
pub proof fn lemma_block_start_round_trip(b: EraseBlock)
    requires
        b.wf(),
    ensures
        locates_addr(b.regions(), b.spec_addr_start(), b.idx(), b.offs(), 0),
{
    let rs = b.regions();
    let r = rs[b.idx()];
    let a = b.spec_addr_start();
    b.lemma_within_region();
    assert(r.valid());
    assert forall|j: int| 0 <= j < b.idx() implies !#[trigger] rs[j].spec_contains(a) by {
        lemma_ordered_apart(rs, j, b.idx());
    }
    vstd::arithmetic::div_mod::lemma_div_multiples_vanish(b.offs(), r.eb_bytes as int);
    vstd::arithmetic::div_mod::lemma_mod_multiples_basic(b.offs(), r.eb_bytes as int);
    vstd::arithmetic::mul::lemma_mul_is_commutative(b.offs(), r.eb_bytes as int);
}

/// The length of a layout, the sum of its regions' lengths, never exceeds the span from its start
/// to its end address; it falls short of it by the gaps between regions.
pub proof fn lemma_len_within_span(l: FlashLayout)
    requires
        l.wf(),
    ensures
        l.spec_len() <= l.spec_addr_end() - l.spec_addr_start(),
{
    lemma_bytes_within_span(l.regions@, l.regions@.len() as int);
}

} // verus!
