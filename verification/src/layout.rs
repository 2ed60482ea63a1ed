//! The layout of a block's byte arena: one region per column, one cell per
//! slot in each region.

use vstd::prelude::*;

verus! {

/// The number of slots of every block.
pub const SLOTS_PER_BLOCK: usize = 1000;

/// Where the region of column `c` starts in the arena: the regions of the
/// columns before it, each `SLOTS_PER_BLOCK` cells long, come first. With `c`
/// the number of columns, this is the size of the whole arena.
pub open spec fn arena_offset(sizes: Seq<usize>, c: int) -> int
    decreases c,
{
    if c <= 0 {
        0
    } else {
        arena_offset(sizes, c - 1) + SLOTS_PER_BLOCK * sizes[c - 1]
    }
}

/// Where the cell of slot `r` in column `c` starts in the arena.
pub open spec fn slot_start(sizes: Seq<usize>, c: int, r: int) -> int {
    arena_offset(sizes, c) + r * sizes[c]
}

/// Regions are laid out in the order of their columns.
pub proof fn lemma_offset_monotone(sizes: Seq<usize>, a: int, b: int)
    requires
        0 <= a <= b <= sizes.len(),
    ensures
        0 <= arena_offset(sizes, a) <= arena_offset(sizes, b),
    decreases b,
{
    if b > 0 {
        if a < b {
            lemma_offset_monotone(sizes, a, b - 1);
        } else {
            lemma_offset_monotone(sizes, a - 1, b - 1);
        }
    }
}

/// A cell lies within the region of its column.
pub proof fn lemma_slot_in_region(sizes: Seq<usize>, c: int, r: int)
    requires
        0 <= c < sizes.len(),
        0 <= r < SLOTS_PER_BLOCK,
    ensures
        arena_offset(sizes, c) <= slot_start(sizes, c, r),
        slot_start(sizes, c, r) + sizes[c] <= arena_offset(sizes, c + 1),
        arena_offset(sizes, c + 1) <= arena_offset(sizes, sizes.len() as int),
        0 <= arena_offset(sizes, c),
{
    lemma_offset_monotone(sizes, c + 1, sizes.len() as int);
    lemma_offset_monotone(sizes, 0, c);
    let s = sizes[c] as int;
    assert(0 <= r * s && r * s + s <= SLOTS_PER_BLOCK * s) by (nonlinear_arith)
        requires
            0 <= r < SLOTS_PER_BLOCK,
            0 <= s,
    ;
}

/// Two different cells share no byte.
pub proof fn lemma_slots_disjoint(sizes: Seq<usize>, c1: int, r1: int, c2: int, r2: int)
    requires
        0 <= c1 < sizes.len(),
        0 <= c2 < sizes.len(),
        0 <= r1 < SLOTS_PER_BLOCK,
        0 <= r2 < SLOTS_PER_BLOCK,
        c1 != c2 || r1 != r2,
    ensures
        slot_start(sizes, c1, r1) + sizes[c1] <= slot_start(sizes, c2, r2) || slot_start(
            sizes,
            c2,
            r2,
        ) + sizes[c2] <= slot_start(sizes, c1, r1),
{
    lemma_slot_in_region(sizes, c1, r1);
    lemma_slot_in_region(sizes, c2, r2);
    if c1 < c2 {
        lemma_offset_monotone(sizes, c1 + 1, c2);
    } else if c2 < c1 {
        lemma_offset_monotone(sizes, c2 + 1, c1);
    } else {
        let s = sizes[c1] as int;
        if r1 < r2 {
            assert(r1 * s + s <= r2 * s) by (nonlinear_arith)
                requires
                    r1 + 1 <= r2,
                    0 <= s,
            ;
        } else {
            assert(r2 * s + s <= r1 * s) by (nonlinear_arith)
                requires
                    r2 + 1 <= r1,
                    0 <= s,
            ;
        }
    }
}

} // verus!
