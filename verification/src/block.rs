//! Blocks: fixed-capacity columnar storage of rows, in one flat byte arena
//! with a validity bitmap per column and one liveness bitmap.

use crate::bitmap::bitmap_members;
use crate::error::{RowChange, StoreError};
use crate::layout::{
    arena_offset, lemma_offset_monotone, lemma_slot_in_region, lemma_slots_disjoint, slot_start,
    SLOTS_PER_BLOCK,
};
use crate::model::{
    lemma_supplied_at, lemma_supplied_extend, supplied, zeros, BlockView, SlotView,
};
use crate::row::{value_view, values_view, ProjectedRow};
use roaring::RoaringBitmap;
use vstd::prelude::*;

verus! {

/// A fixed-capacity columnar storage unit.
#[derive(Debug)]
pub struct Block {
    num_slots: usize,
    num_records: usize,
    column_sizes: Vec<usize>,
    column_bytes: Vec<u8>,
    column_offsets: Vec<usize>,
    bitmaps: Vec<RoaringBitmap>,
    bitmap: RoaringBitmap,
}

/// The bytes of the arena that make up the cell of slot `r` in column `c`.
spec fn cell_bytes(arena: Seq<u8>, sizes: Seq<usize>, c: int, r: int) -> Seq<u8> {
    arena.subrange(slot_start(sizes, c, r), slot_start(sizes, c, r) + sizes[c])
}

/// Writing the cell of slot `r` in column `c` changes that cell and no other.
proof fn lemma_cell_written(
    before: Seq<u8>,
    after: Seq<u8>,
    sizes: Seq<usize>,
    c: int,
    r: int,
    data: Seq<u8>,
)
    requires
        0 <= c < sizes.len(),
        0 <= r < SLOTS_PER_BLOCK,
        before.len() == arena_offset(sizes, sizes.len() as int),
        after.len() == before.len(),
        data.len() == sizes[c],
        forall|i: int|
            0 <= i < before.len() ==> #[trigger] after[i] == if slot_start(sizes, c, r) <= i
                < slot_start(sizes, c, r) + sizes[c] {
                data[i - slot_start(sizes, c, r)]
            } else {
                before[i]
            },
    ensures
        cell_bytes(after, sizes, c, r) == data,
        forall|c2: int, r2: int|
            0 <= c2 < sizes.len() && 0 <= r2 < SLOTS_PER_BLOCK && (c2 != c || r2 != r)
                ==> #[trigger] cell_bytes(after, sizes, c2, r2) == cell_bytes(
                before,
                sizes,
                c2,
                r2,
            ),
{
    lemma_slot_in_region(sizes, c, r);
    assert(cell_bytes(after, sizes, c, r) =~= data);
    assert forall|c2: int, r2: int|
        0 <= c2 < sizes.len() && 0 <= r2 < SLOTS_PER_BLOCK && (c2 != c || r2 != r)
        implies #[trigger] cell_bytes(after, sizes, c2, r2) == cell_bytes(
        before,
        sizes,
        c2,
        r2,
    ) by {
        lemma_slot_in_region(sizes, c2, r2);
        lemma_slots_disjoint(sizes, c, r, c2, r2);
        assert(cell_bytes(after, sizes, c2, r2) =~= cell_bytes(before, sizes, c2, r2));
    }
}

/// Copies the first `size` bytes of `src` into the arena, from `start` on.
fn write_bytes(arena: &mut Vec<u8>, start: usize, size: usize, src: &Vec<u8>)
    requires
        start + size <= old(arena)@.len(),
        size <= src@.len(),
    ensures
        final(arena)@.len() == old(arena)@.len(),
        forall|i: int|
            0 <= i < old(arena)@.len() ==> #[trigger] final(arena)@[i] == if start <= i < start
                + size {
                src@[i - start]
            } else {
                old(arena)@[i]
            },
{
    let len: usize = arena.len();
    let mut i: usize = 0;
    while i < size
        invariant
            0 <= i <= size,
            size <= src@.len(),
            arena@.len() == old(arena)@.len(),
            arena@.len() == len,
            start + size <= arena@.len(),
            forall|j: int|
                0 <= j < arena@.len() ==> #[trigger] arena@[j] == if start <= j < start + i {
                    src@[j - start]
                } else {
                    old(arena)@[j]
                },
        decreases size - i,
    {
        arena.set(start + i, src[i]);
        i = i + 1;
    }
}

/// Sets `size` bytes of the arena to zero, from `start` on.
fn zero_bytes(arena: &mut Vec<u8>, start: usize, size: usize)
    requires
        start + size <= old(arena)@.len(),
    ensures
        final(arena)@.len() == old(arena)@.len(),
        forall|i: int|
            0 <= i < old(arena)@.len() ==> #[trigger] final(arena)@[i] == if start <= i < start
                + size {
                0u8
            } else {
                old(arena)@[i]
            },
{
    let len: usize = arena.len();
    let mut i: usize = 0;
    while i < size
        invariant
            0 <= i <= size,
            arena@.len() == old(arena)@.len(),
            arena@.len() == len,
            start + size <= arena@.len(),
            forall|j: int|
                0 <= j < arena@.len() ==> #[trigger] arena@[j] == if start <= j < start + i {
                    0u8
                } else {
                    old(arena)@[j]
                },
        decreases size - i,
    {
        arena.set(start + i, 0u8);
        i = i + 1;
    }
}

impl Block {
    /// The layout is consistent: offsets follow from the column sizes, and
    /// the arena holds one cell per slot and column.
    spec fn layout_wf(&self) -> bool {
        &&& self.num_slots == SLOTS_PER_BLOCK
        &&& self.num_records <= self.num_slots
        &&& self.column_offsets@.len() == self.column_sizes@.len()
        &&& self.bitmaps@.len() == self.column_sizes@.len()
        &&& self.column_bytes@.len() == arena_offset(
            self.column_sizes@,
            self.column_sizes@.len() as int,
        )
        &&& forall|c: int|
            0 <= c < self.column_sizes@.len() ==> (#[trigger] self.column_offsets@[c])
                == arena_offset(self.column_sizes@, c)
    }

    /// The block is consistent: its layout is, the bitmaps name allocated
    /// slots only, and the cells of the slots not yet allocated are zero.
    pub closed spec fn wf(&self) -> bool {
        &&& self.layout_wf()
        &&& forall|c: int, v: u32|
            0 <= c < self.column_sizes@.len() && #[trigger] bitmap_members(
                self.bitmaps@[c],
            ).contains(v) ==> v < self.num_records
        &&& forall|v: u32| #[trigger]
            bitmap_members(self.bitmap).contains(v) ==> v < self.num_records
        &&& forall|c: int, r: int|
            0 <= c < self.column_sizes@.len() && self.num_records <= r < SLOTS_PER_BLOCK
                ==> #[trigger] cell_bytes(self.column_bytes@, self.column_sizes@, c, r) == zeros(
                self.column_sizes@[c] as nat,
            )
    }

    /// Slot `r` as the block's bitmaps and arena hold it.
    spec fn slot(&self, r: int) -> SlotView {
        SlotView {
            live: bitmap_members(self.bitmap).contains(r as u32),
            valid: Seq::new(
                self.column_sizes@.len(),
                |c: int| bitmap_members(self.bitmaps@[c]).contains(r as u32),
            ),
            bytes: Seq::new(
                self.column_sizes@.len(),
                |c: int| cell_bytes(self.column_bytes@, self.column_sizes@, c, r),
            ),
        }
    }

    /// A consistent block is a consistent block in the model too.
    pub proof fn lemma_view_wf(&self)
        requires
            self.wf(),
        ensures
            self@.wf(),
            self@.num_slots == SLOTS_PER_BLOCK,
    {
        assert forall|r: int| 0 <= r < self@.slots.len() implies {
            &&& (#[trigger] self@.slots[r]).valid.len() == self@.column_sizes.len()
            &&& self@.slots[r].bytes.len() == self@.column_sizes.len()
            &&& forall|c: int|
                0 <= c < self@.column_sizes.len() ==> (#[trigger] self@.slots[r].bytes[c]).len()
                    == self@.column_sizes[c]
        } by {
            assert forall|c: int| 0 <= c < self@.column_sizes.len() implies (
            #[trigger] self@.slots[r].bytes[c]).len() == self@.column_sizes[c] by {
                lemma_slot_in_region(self.column_sizes@, c, r);
            }
        }
    }

    /// The number of slots of the block.
    pub fn num_slots(&self) -> (n: usize)
        ensures
            n == self@.num_slots,
    {
        self.num_slots
    }

    /// The number of slots allocated so far; it never decreases.
    pub fn num_records(&self) -> (n: usize)
        ensures
            n == self@.num_records(),
    {
        self.num_records
    }

    /// Tests whether the arena of a block for columns of the given byte
    /// widths is addressable, as `new` asks.
    pub fn arena_fits(column_sizes: &Vec<usize>) -> (fits: bool)
        ensures
            fits == (arena_offset(column_sizes@, column_sizes@.len() as int) <= usize::MAX),
    {
        let n: usize = column_sizes.len();
        let mut total: usize = 0;
        let mut c: usize = 0;
        while c < n
            invariant
                n == column_sizes@.len(),
                0 <= c <= n,
                total == arena_offset(column_sizes@, c as int),
            decreases n - c,
        {
            proof {
                lemma_offset_monotone(column_sizes@, c + 1, n as int);
            }
            match SLOTS_PER_BLOCK.checked_mul(column_sizes[c]) {
                Some(region) => match total.checked_add(region) {
                    Some(sum) => {
                        total = sum;
                    },
                    None => {
                        return false;
                    },
                },
                None => {
                    return false;
                },
            }
            c = c + 1;
        }
        true
    }

    /// Tests whether a row can be stored in the block, as `insert` and
    /// `update` ask: each column that it lists exists, and each of its values
    /// has at least as many bytes as its column is wide.
    pub fn accepts(&self, row: &ProjectedRow) -> (accepted: bool)
        requires
            row.wf(),
        ensures
            accepted == self@.accepts(row.ids(), row.values()),
    {
        let ids = row.column_ids();
        let vals = row.column_values();
        let ncols: usize = self.column_sizes.len();
        let mut k: usize = 0;
        while k < ids.len()
            invariant
                ids@ == row.ids(),
                values_view(vals@) == row.values(),
                row.wf(),
                ncols == self.column_sizes@.len(),
                0 <= k <= ids@.len(),
                forall|j: int|
                    0 <= j < k ==> {
                        &&& (#[trigger] ids@[j]) < ncols
                        &&& row.values()[j] is Some ==> row.values()[j]->0.len()
                            >= self.column_sizes@[ids@[j] as int]
                    },
            decreases ids@.len() - k,
        {
            let column_id: usize = ids[k];
            assert(row.values()[k as int] == value_view(vals@[k as int]));
            if column_id >= ncols {
                return false;
            }
            match &vals[k] {
                Some(bytes) => {
                    if bytes.len() < self.column_sizes[column_id] {
                        return false;
                    }
                },
                None => {},
            }
            k = k + 1;
        }
        true
    }

    /// Creates an empty block for columns of the given byte widths. The
    /// arena, of `SLOTS_PER_BLOCK` cells per column, must be addressable.
    pub fn new(column_sizes: Vec<usize>) -> (block: Block)
        requires
            arena_offset(column_sizes@, column_sizes@.len() as int) <= usize::MAX,
        ensures
            block.wf(),
            block@ == (BlockView {
                column_sizes: column_sizes@,
                num_slots: SLOTS_PER_BLOCK as nat,
                slots: Seq::empty(),
            }),
    {
        let n: usize = column_sizes.len();
        let mut bitmaps: Vec<RoaringBitmap> = Vec::with_capacity(n);
        let mut column_offsets: Vec<usize> = Vec::new();
        let mut column_offset: usize = 0;
        let num_slots: usize = SLOTS_PER_BLOCK;
        let mut c: usize = 0;
        while c < n
            invariant
                n == column_sizes@.len(),
                num_slots == SLOTS_PER_BLOCK,
                0 <= c <= n,
                bitmaps@.len() == c,
                column_offsets@.len() == c,
                column_offset == arena_offset(column_sizes@, c as int),
                arena_offset(column_sizes@, n as int) <= usize::MAX,
                forall|k: int|
                    0 <= k < c ==> (#[trigger] column_offsets@[k]) == arena_offset(
                        column_sizes@,
                        k,
                    ),
                forall|k: int|
                    0 <= k < c ==> bitmap_members(#[trigger] bitmaps@[k]) == Set::<u32>::empty(),
            decreases n - c,
        {
            bitmaps.push(RoaringBitmap::new());
            column_offsets.push(column_offset);
            proof {
                lemma_offset_monotone(column_sizes@, c + 1, n as int);
                lemma_offset_monotone(column_sizes@, 0, c as int);
            }
            column_offset = column_offset + num_slots * column_sizes[c];
            c = c + 1;
        }
        let column_bytes: Vec<u8> = vec![0u8; column_offset];
        let block = Block {
            num_slots,
            num_records: 0,
            column_sizes,
            column_bytes,
            column_offsets,
            bitmaps,
            bitmap: RoaringBitmap::new(),
        };
        proof {
            assert forall|c: int, r: int|
                0 <= c < block.column_sizes@.len() && 0 <= r < SLOTS_PER_BLOCK implies #[trigger] cell_bytes(
                block.column_bytes@,
                block.column_sizes@,
                c,
                r,
            ) == zeros(block.column_sizes@[c] as nat) by {
                lemma_slot_in_region(block.column_sizes@, c, r);
                assert(cell_bytes(block.column_bytes@, block.column_sizes@, c, r) =~= zeros(
                    block.column_sizes@[c] as nat,
                ));
            }
            assert(block@.slots =~= Seq::empty());
        }
        block
    }

    /// Copies the cell of slot `r` in column `c` out of the arena.
    fn read_cell(&self, c: usize, r: usize) -> (bytes: Vec<u8>)
        requires
            self.layout_wf(),
            c < self.column_sizes@.len(),
            r < SLOTS_PER_BLOCK,
        ensures
            bytes@ == cell_bytes(self.column_bytes@, self.column_sizes@, c as int, r as int),
    {
        let size: usize = self.column_sizes[c];
        let arena_len: usize = self.column_bytes.len();
        let start: usize = self.cell_start(c, r);
        let mut bytes: Vec<u8> = Vec::with_capacity(size);
        let mut i: usize = 0;
        while i < size
            invariant
                0 <= i <= size,
                start + size <= arena_len,
                arena_len == self.column_bytes@.len(),
                bytes@ == self.column_bytes@.subrange(start as int, start + i),
            decreases size - i,
        {
            bytes.push(self.column_bytes[start + i]);
            assert(bytes@ =~= self.column_bytes@.subrange(start as int, start + i + 1));
            i = i + 1;
        }
        bytes
    }

    /// Reads slot `index` through the columns `column_ids`. Where the slot
    /// holds a live record, they must be strictly ascending ids of columns
    /// of the block.
    ///
    /// The result is `None` where the slot was never allocated, where its
    /// record was deleted, and also where the record is live but holds no
    /// value in any of the columns asked for.
    pub fn row_at_index(&self, index: usize, column_ids: &[usize]) -> (out: Option<ProjectedRow>)
        requires
            self.wf(),
            self@.holds_live(index as int) ==> self@.readable(column_ids@),
        ensures
            match out {
                Some(row) => {
                    &&& row.wf()
                    &&& row.ids() == column_ids@
                    &&& self@.read(index as int, column_ids@) == Some(row.values())
                },
                None => self@.read(index as int, column_ids@) is None,
            },
    {
        if index >= self.num_records {
            return None;
        }
        if !self.bitmap.contains(index as u32) {
            return None;
        }
        let ghost slot = self.slot(index as int);
        assert(self@.slots[index as int] == slot);
        assert(self@.holds_live(index as int));
        let mut ids: Vec<usize> = Vec::new();
        let mut column_values: Vec<Option<Vec<u8>>> = Vec::new();
        let mut has_value: bool = false;
        let mut k: usize = 0;
        while k < column_ids.len()
            invariant
                self.wf(),
                index < self.num_records,
                slot == self.slot(index as int),
                forall|j: int|
                    0 <= j < column_ids@.len() ==> column_ids@[j] < self.column_sizes@.len(),
                0 <= k <= column_ids@.len(),
                ids@ == column_ids@.subrange(0, k as int),
                column_values@.len() == k,
                forall|j: int|
                    0 <= j < k ==> value_view(#[trigger] column_values@[j]) == slot.cell(
                        column_ids@[j] as int,
                    ),
                has_value <==> exists|j: int| 0 <= j < k && (#[trigger] column_values@[j]) is Some,
            decreases column_ids@.len() - k,
        {
            let column_id: usize = column_ids[k];
            let ghost before = column_values@;
            ids.push(column_id);
            assert(ids@ =~= column_ids@.subrange(0, k + 1));
            if self.bitmaps[column_id].contains(index as u32) {
                has_value = true;
                let value = self.read_cell(column_id, index);
                column_values.push(Some(value));
                assert(column_values@[k as int] is Some);
            } else {
                column_values.push(None);
                assert(forall|j: int| 0 <= j < k ==> column_values@[j] == #[trigger] before[j]);
                assert(forall|j: int|
                    0 <= j < k + 1 && (#[trigger] column_values@[j]) is Some ==> j < k
                        && before[j] is Some);
            }
            k = k + 1;
        }
        assert(ids@ =~= column_ids@);
        assert(values_view(column_values@) =~= self@.cells(index as int, column_ids@));
        if has_value {
            proof {
                let j = choose|j: int| 0 <= j < k && (#[trigger] column_values@[j]) is Some;
                assert(self@.cells(index as int, column_ids@)[j] is Some);
            }
            Some(ProjectedRow::new(ids, column_values))
        } else {
            assert forall|j: int| 0 <= j < column_ids@.len() implies (#[trigger] self@.cells(
                index as int,
                column_ids@,
            )[j]) is None by {
                assert(!(column_values@[j] is Some));
            }
            None
        }
    }

    /// Where the cell of slot `r` in column `c` starts in the arena.
    fn cell_start(&self, c: usize, r: usize) -> (start: usize)
        requires
            self.layout_wf(),
            c < self.column_sizes@.len(),
            r < SLOTS_PER_BLOCK,
        ensures
            start == slot_start(self.column_sizes@, c as int, r as int),
            start + self.column_sizes@[c as int] <= self.column_bytes@.len(),
    {
        proof {
            lemma_slot_in_region(self.column_sizes@, c as int, r as int);
            assert(0 <= r * self.column_sizes@[c as int] <= SLOTS_PER_BLOCK
                * self.column_sizes@[c as int]) by (nonlinear_arith)
                requires
                    0 <= r < SLOTS_PER_BLOCK,
                    0 <= self.column_sizes@[c as int],
            ;
        }
        let size: usize = self.column_sizes[c];
        let arena_len: usize = self.column_bytes.len();
        assert(self.column_offsets@[c as int] + r * size + size <= arena_len);
        self.column_offsets[c] + r * size
    }

    /// Stores a value in the cell of slot `r` in column `c` and marks the
    /// cell as holding one.
    fn store_value(&mut self, c: usize, r: usize, src: &Vec<u8>)
        requires
            old(self).layout_wf(),
            c < old(self).column_sizes@.len(),
            r < SLOTS_PER_BLOCK,
            src@.len() >= old(self).column_sizes@[c as int],
        ensures
            final(self).layout_wf(),
            final(self).num_slots == old(self).num_slots,
            final(self).num_records == old(self).num_records,
            final(self).column_sizes@ == old(self).column_sizes@,
            final(self).bitmap == old(self).bitmap,
            forall|c2: int|
                0 <= c2 < old(self).column_sizes@.len() ==> bitmap_members(
                    #[trigger] final(self).bitmaps@[c2],
                ) == if c2 == c {
                    bitmap_members(old(self).bitmaps@[c2]).insert(r as u32)
                } else {
                    bitmap_members(old(self).bitmaps@[c2])
                },
            forall|c2: int, r2: int|
                0 <= c2 < old(self).column_sizes@.len() && 0 <= r2 < SLOTS_PER_BLOCK
                    ==> #[trigger] cell_bytes(
                    final(self).column_bytes@,
                    old(self).column_sizes@,
                    c2,
                    r2,
                ) == if c2 == c && r2 == r {
                    src@.subrange(0, old(self).column_sizes@[c as int] as int)
                } else {
                    cell_bytes(old(self).column_bytes@, old(self).column_sizes@, c2, r2)
                },
    {
        let size: usize = self.column_sizes[c];
        let start: usize = self.cell_start(c, r);
        write_bytes(&mut self.column_bytes, start, size, src);
        self.bitmaps[c].insert(r as u32);
        proof {
            lemma_cell_written(
                old(self).column_bytes@,
                self.column_bytes@,
                self.column_sizes@,
                c as int,
                r as int,
                src@.subrange(0, size as int),
            );
        }
    }

    /// Stores a row in the next free slot.
    ///
    /// The row's ids are strictly ascending ids of columns of the block, and
    /// a value has at least the bytes of its column's width, of which that
    /// many are stored. A column that the row lists with null, or does not
    /// list, holds no value in the new slot.
    ///
    /// Fails with `CapacityExceeded`, changing nothing, where every slot of
    /// the block is allocated; the row then need not fit the block.
    pub fn insert(&mut self, row: &ProjectedRow) -> (res: Result<(), StoreError>)
        requires
            old(self).wf(),
            row.wf(),
            old(self)@.num_records() < old(self)@.num_slots ==> old(self)@.accepts(
                row.ids(),
                row.values(),
            ),
        ensures
            final(self).wf(),
            match res {
                Ok(()) => {
                    &&& old(self)@.num_records() < old(self)@.num_slots
                    &&& final(self)@ == old(self)@.insert(row.ids(), row.values())
                },
                Err(e) => {
                    &&& e == StoreError::CapacityExceeded
                    &&& old(self)@.num_records() == old(self)@.num_slots
                    &&& *final(self) == *old(self)
                },
            },
    {
        if self.num_records == self.num_slots {
            return Err(StoreError::CapacityExceeded);
        }
        let record_index: usize = self.num_records;
        let ids = row.column_ids();
        let vals = row.column_values();
        let ncols: usize = self.column_sizes.len();
        let ghost sizes = self.column_sizes@;
        let ghost row_values = row.values();
        let mut row_index: usize = 0;
        let mut col_index: usize = 0;
        while col_index < ncols
            invariant
                self.layout_wf(),
                self.num_records == record_index,
                self.num_slots == old(self).num_slots,
                record_index == old(self).num_records,
                record_index < SLOTS_PER_BLOCK,
                self.column_sizes@ == sizes,
                sizes == old(self).column_sizes@,
                ncols == sizes.len(),
                self.bitmap == old(self).bitmap,
                ids@ == row.ids(),
                row_values == row.values(),
                values_view(vals@) == row_values,
                row.wf(),
                old(self)@.accepts(row.ids(), row.values()),
                0 <= row_index <= ids@.len(),
                0 <= col_index <= ncols,
                forall|k: int| 0 <= k < row_index ==> ids@[k] < col_index,
                forall|k: int| row_index <= k < ids@.len() ==> ids@[k] >= col_index,
                forall|c: int|
                    0 <= c < ncols ==> bitmap_members(#[trigger] self.bitmaps@[c]) == if c
                        < col_index && supplied(ids@, row_values, c) matches Some(Some(_)) {
                        bitmap_members(old(self).bitmaps@[c]).insert(record_index as u32)
                    } else {
                        bitmap_members(old(self).bitmaps@[c])
                    },
                forall|c: int, r: int|
                    0 <= c < ncols && 0 <= r < SLOTS_PER_BLOCK ==> #[trigger] cell_bytes(
                        self.column_bytes@,
                        sizes,
                        c,
                        r,
                    ) == if r == record_index && c < col_index && supplied(
                        ids@,
                        row_values,
                        c,
                    ) matches Some(Some(_)) {
                        supplied(ids@, row_values, c)->0->0.subrange(0, sizes[c] as int)
                    } else {
                        cell_bytes(old(self).column_bytes@, sizes, c, r)
                    },
            decreases ncols - col_index,
        {
            if row_index < ids.len() && ids[row_index] == col_index {
                proof {
                    lemma_supplied_at(ids@, row_values, row_index as int);
                    assert(row_values[row_index as int] == value_view(vals@[row_index as int]));
                }
                match &vals[row_index] {
                    Some(bytes) => {
                        self.store_value(col_index, record_index, bytes);
                    },
                    None => {},
                }
                row_index = row_index + 1;
            } else {
                assert(supplied(ids@, row_values, col_index as int) is None);
            }
            col_index = col_index + 1;
        }
        self.num_records = self.num_records + 1;
        self.bitmap.insert(record_index as u32);
        proof {
            let before = old(self)@;
            let slot = before.inserted_slot(row.ids(), row.values());
            assert(self.slot(record_index as int).valid =~= slot.valid);
            assert(self.slot(record_index as int).bytes =~= slot.bytes);
            assert forall|r: int| 0 <= r < record_index implies self.slot(r) == old(self).slot(
                r,
            ) by {
                assert(r as u32 != record_index as u32);
                assert(self.slot(r).valid =~= old(self).slot(r).valid);
                assert(self.slot(r).bytes =~= old(self).slot(r).bytes);
            }
            assert(self@.slots =~= before.slots.push(slot));
        }
        Ok(())
    }

    /// Marks the cell of slot `r` in column `c` as holding no value. Its
    /// bytes stay as they are.
    fn clear_validity(&mut self, c: usize, r: usize)
        requires
            old(self).layout_wf(),
            c < old(self).column_sizes@.len(),
            r < SLOTS_PER_BLOCK,
        ensures
            final(self).layout_wf(),
            final(self).num_slots == old(self).num_slots,
            final(self).num_records == old(self).num_records,
            final(self).column_sizes@ == old(self).column_sizes@,
            final(self).column_bytes@ == old(self).column_bytes@,
            final(self).bitmap == old(self).bitmap,
            forall|c2: int|
                0 <= c2 < old(self).column_sizes@.len() ==> bitmap_members(
                    #[trigger] final(self).bitmaps@[c2],
                ) == if c2 == c {
                    bitmap_members(old(self).bitmaps@[c2]).remove(r as u32)
                } else {
                    bitmap_members(old(self).bitmaps@[c2])
                },
    {
        self.bitmaps[c].remove(r as u32);
    }

    /// Fills the cell of slot `r` in column `c` with zero bytes.
    fn zero_cell(&mut self, c: usize, r: usize)
        requires
            old(self).layout_wf(),
            c < old(self).column_sizes@.len(),
            r < SLOTS_PER_BLOCK,
        ensures
            final(self).layout_wf(),
            final(self).num_slots == old(self).num_slots,
            final(self).num_records == old(self).num_records,
            final(self).column_sizes@ == old(self).column_sizes@,
            final(self).bitmaps@ == old(self).bitmaps@,
            final(self).bitmap == old(self).bitmap,
            forall|c2: int, r2: int|
                0 <= c2 < old(self).column_sizes@.len() && 0 <= r2 < SLOTS_PER_BLOCK
                    ==> #[trigger] cell_bytes(
                    final(self).column_bytes@,
                    old(self).column_sizes@,
                    c2,
                    r2,
                ) == if c2 == c && r2 == r {
                    zeros(old(self).column_sizes@[c as int] as nat)
                } else {
                    cell_bytes(old(self).column_bytes@, old(self).column_sizes@, c2, r2)
                },
    {
        let size: usize = self.column_sizes[c];
        let start: usize = self.cell_start(c, r);
        zero_bytes(&mut self.column_bytes, start, size);
        proof {
            lemma_cell_written(
                old(self).column_bytes@,
                self.column_bytes@,
                self.column_sizes@,
                c as int,
                r as int,
                zeros(size as nat),
            );
        }
    }

    /// Overwrites the columns that the row lists in the allocated slot
    /// `record_index`: a value is stored, cut to its column's width, and a
    /// null makes the column null. Columns that the row does not list are
    /// untouched, and so is the liveness of the slot.
    ///
    /// Fails with `NoSuchRecord`, changing nothing, where the slot was never
    /// allocated; the row then need not fit the block.
    pub fn update(&mut self, record_index: usize, row: &ProjectedRow) -> (res: Result<
        (),
        StoreError,
    >)
        requires
            old(self).wf(),
            row.wf(),
            record_index < old(self)@.num_records() ==> old(self)@.accepts(
                row.ids(),
                row.values(),
            ),
        ensures
            final(self).wf(),
            match res {
                Ok(()) => {
                    &&& record_index < old(self)@.num_records()
                    &&& final(self)@ == old(self)@.update(
                        record_index as int,
                        row.ids(),
                        row.values(),
                    )
                },
                Err(e) => {
                    &&& e == StoreError::NoSuchRecord(RowChange::Update)
                    &&& record_index >= old(self)@.num_records()
                    &&& *final(self) == *old(self)
                },
            },
    {
        if record_index >= self.num_records {
            return Err(StoreError::NoSuchRecord(RowChange::Update));
        }
        let ids = row.column_ids();
        let vals = row.column_values();
        let ghost sizes = self.column_sizes@;
        let ghost ncols = sizes.len();
        let ghost row_values = row.values();
        let mut k: usize = 0;
        while k < ids.len()
            invariant
                self.layout_wf(),
                self.num_records == old(self).num_records,
                self.num_slots == old(self).num_slots,
                record_index < self.num_records,
                self.column_sizes@ == sizes,
                sizes == old(self).column_sizes@,
                ncols == sizes.len(),
                self.bitmap == old(self).bitmap,
                ids@ == row.ids(),
                row_values == row.values(),
                values_view(vals@) == row_values,
                row.wf(),
                old(self)@.accepts(row.ids(), row.values()),
                0 <= k <= ids@.len(),
                forall|c: int|
                    0 <= c < ncols ==> bitmap_members(#[trigger] self.bitmaps@[c]) == match supplied(
                        ids@.take(k as int),
                        row_values.take(k as int),
                        c,
                    ) {
                        Some(Some(_)) => bitmap_members(old(self).bitmaps@[c]).insert(
                            record_index as u32,
                        ),
                        Some(None) => bitmap_members(old(self).bitmaps@[c]).remove(
                            record_index as u32,
                        ),
                        None => bitmap_members(old(self).bitmaps@[c]),
                    },
                forall|c: int, r: int|
                    0 <= c < ncols && 0 <= r < SLOTS_PER_BLOCK ==> #[trigger] cell_bytes(
                        self.column_bytes@,
                        sizes,
                        c,
                        r,
                    ) == if r == record_index && supplied(
                        ids@.take(k as int),
                        row_values.take(k as int),
                        c,
                    ) matches Some(Some(_)) {
                        supplied(ids@.take(k as int), row_values.take(k as int), c)->0->0.subrange(
                            0,
                            sizes[c] as int,
                        )
                    } else {
                        cell_bytes(old(self).column_bytes@, sizes, c, r)
                    },
            decreases ids@.len() - k,
        {
            let column_id: usize = ids[k];
            proof {
                assert(ids@.take(k + 1)[k as int] == column_id);
                assert(row_values.take(k + 1)[k as int] == row_values[k as int]);
                lemma_supplied_at(ids@.take(k + 1), row_values.take(k + 1), k as int);
                assert(row_values[k as int] == value_view(vals@[k as int]));
                assert forall|c: int| c != column_id implies supplied(
                    ids@.take(k + 1),
                    row_values.take(k + 1),
                    c,
                ) == supplied(ids@.take(k as int), row_values.take(k as int), c) by {
                    lemma_supplied_extend(ids@, row_values, k as int, c);
                }
            }
            match &vals[k] {
                Some(bytes) => {
                    self.store_value(column_id, record_index, bytes);
                },
                None => {
                    self.clear_validity(column_id, record_index);
                },
            }
            k = k + 1;
        }
        proof {
            assert(ids@.take(k as int) =~= ids@);
            assert(row_values.take(k as int) =~= row_values);
            let before = old(self)@;
            let slot = before.updated_slot(record_index as int, row.ids(), row.values());
            assert(before.slots[record_index as int] == old(self).slot(record_index as int));
            assert(self.slot(record_index as int).valid =~= slot.valid);
            assert(self.slot(record_index as int).bytes =~= slot.bytes);
            assert forall|r: int|
                0 <= r < self.num_records && r != record_index implies self.slot(r) == old(
                self,
            ).slot(r) by {
                assert(r as u32 != record_index as u32);
                assert(self.slot(r).valid =~= old(self).slot(r).valid);
                assert(self.slot(r).bytes =~= old(self).slot(r).bytes);
            }
            assert(self@.slots =~= before.slots.update(record_index as int, slot));
        }
        Ok(())
    }

    /// Deletes the record in the allocated slot `record_index`: every column
    /// of the slot becomes null and its bytes zero, and the slot is no longer
    /// live. The slot stays allocated and is never given out again.
    ///
    /// Fails with `NoSuchRecord`, changing nothing, where the slot was never
    /// allocated.
    pub fn delete(&mut self, record_index: usize) -> (res: Result<(), StoreError>)
        requires
            old(self).wf(),
        ensures
            final(self).wf(),
            match res {
                Ok(()) => {
                    &&& record_index < old(self)@.num_records()
                    &&& final(self)@ == old(self)@.delete(record_index as int)
                },
                Err(e) => {
                    &&& e == StoreError::NoSuchRecord(RowChange::Delete)
                    &&& record_index >= old(self)@.num_records()
                    &&& *final(self) == *old(self)
                },
            },
    {
        if record_index >= self.num_records {
            return Err(StoreError::NoSuchRecord(RowChange::Delete));
        }
        let ncols: usize = self.column_sizes.len();
        let ghost sizes = self.column_sizes@;
        let mut column_id: usize = 0;
        while column_id < ncols
            invariant
                self.layout_wf(),
                self.num_records == old(self).num_records,
                self.num_slots == old(self).num_slots,
                record_index < self.num_records,
                self.column_sizes@ == sizes,
                sizes == old(self).column_sizes@,
                ncols == sizes.len(),
                self.bitmap == old(self).bitmap,
                0 <= column_id <= ncols,
                forall|c: int|
                    0 <= c < ncols ==> bitmap_members(#[trigger] self.bitmaps@[c]) == if c
                        < column_id {
                        bitmap_members(old(self).bitmaps@[c]).remove(record_index as u32)
                    } else {
                        bitmap_members(old(self).bitmaps@[c])
                    },
                forall|c: int, r: int|
                    0 <= c < ncols && 0 <= r < SLOTS_PER_BLOCK ==> #[trigger] cell_bytes(
                        self.column_bytes@,
                        sizes,
                        c,
                        r,
                    ) == if r == record_index && c < column_id {
                        zeros(sizes[c] as nat)
                    } else {
                        cell_bytes(old(self).column_bytes@, sizes, c, r)
                    },
            decreases ncols - column_id,
        {
            self.clear_validity(column_id, record_index);
            self.zero_cell(column_id, record_index);
            column_id = column_id + 1;
        }
        self.bitmap.remove(record_index as u32);
        proof {
            let before = old(self)@;
            let slot = before.deleted_slot();
            assert(self.slot(record_index as int).valid =~= slot.valid);
            assert(self.slot(record_index as int).bytes =~= slot.bytes);
            assert forall|r: int|
                0 <= r < self.num_records && r != record_index implies self.slot(r) == old(
                self,
            ).slot(r) by {
                assert(r as u32 != record_index as u32);
                assert(self.slot(r).valid =~= old(self).slot(r).valid);
                assert(self.slot(r).bytes =~= old(self).slot(r).bytes);
            }
            assert(self@.slots =~= before.slots.update(record_index as int, slot));
        }
        Ok(())
    }
}

impl View for Block {
    type V = BlockView;

    closed spec fn view(&self) -> BlockView {
        BlockView {
            column_sizes: self.column_sizes@,
            num_slots: self.num_slots as nat,
            slots: Seq::new(self.num_records as nat, |r: int| self.slot(r)),
        }
    }
}

} // verus!
