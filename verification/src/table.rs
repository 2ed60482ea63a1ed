//! Tables: an ordered sequence of blocks, with rows addressed by locator.

use crate::block::Block;
use crate::model::BlockView;
use crate::row::ProjectedRow;
use vstd::prelude::*;

verus! {

/// The locator of a row: the index of its home block in the table and the
/// index of its slot in that block. It is no memory address, and says
/// nothing of whether such a row exists.
#[derive(Clone, Copy, Debug, PartialEq, Eq, Structural)]
pub struct TupleSlot {
    block_index: usize,
    row_index: usize,
}

impl TupleSlot {
    /// The index of the block that the locator names.
    pub closed spec fn block(&self) -> usize {
        self.block_index
    }

    /// The index of the slot that the locator names in its block.
    pub closed spec fn row(&self) -> usize {
        self.row_index
    }

    /// The locator of slot `row_index` of block `block_index`.
    pub fn new(block_index: usize, row_index: usize) -> (slot: TupleSlot)
        ensures
            slot.block() == block_index,
            slot.row() == row_index,
    {
        TupleSlot { block_index, row_index }
    }

    /// The index of the block that the locator names.
    pub fn block_index(&self) -> (index: usize)
        ensures
            index == self.block(),
    {
        self.block_index
    }

    /// The index of the slot that the locator names in its block.
    pub fn row_index(&self) -> (index: usize)
        ensures
            index == self.row(),
    {
        self.row_index
    }
}

/// What a read through a locator gives in a sequence of blocks: `None`
/// where the locator names no block of the table, else what the read of the
/// slot gives in the block named.
pub open spec fn read_at(blocks: Seq<BlockView>, block: int, row: int, ids: Seq<usize>) -> Option<
    Seq<Option<Seq<u8>>>,
> {
    if 0 <= block < blocks.len() {
        blocks[block].read(row, ids)
    } else {
        None
    }
}

/// An ordered sequence of blocks. Rows never move between blocks.
#[derive(Debug)]
pub struct Table {
    blocks: Vec<Block>,
}

impl View for Table {
    type V = Seq<BlockView>;

    closed spec fn view(&self) -> Seq<BlockView> {
        Seq::new(self.blocks@.len(), |i: int| self.blocks@[i]@)
    }
}

impl Table {
    /// Every block of the table is consistent.
    pub closed spec fn wf(&self) -> bool {
        forall|i: int| 0 <= i < self.blocks@.len() ==> (#[trigger] self.blocks@[i]).wf()
    }

    /// A table of the given blocks, in their order.
    pub fn new(blocks: Vec<Block>) -> (table: Table)
        requires
            forall|i: int| 0 <= i < blocks@.len() ==> (#[trigger] blocks@[i]).wf(),
        ensures
            table.wf(),
            table@ == Seq::new(blocks@.len(), |i: int| blocks@[i]@),
    {
        Table { blocks }
    }

    /// Reads the row that the locator names through the columns
    /// `column_ids`. Where the locator names a live record, they must be
    /// strictly ascending ids of columns of its block.
    ///
    /// The result is `None` where the locator names no block of the table,
    /// and in each case in which the block's own read gives `None`.
    pub fn get_row(&self, tuple_slot: TupleSlot, column_ids: &[usize]) -> (out: Option<
        ProjectedRow,
    >)
        requires
            self.wf(),
            tuple_slot.block() < self@.len() && self@[tuple_slot.block() as int].holds_live(
                tuple_slot.row() as int,
            ) ==> self@[tuple_slot.block() as int].readable(column_ids@),
        ensures
            match out {
                Some(row) => {
                    &&& row.wf()
                    &&& row.ids() == column_ids@
                    &&& read_at(
                        self@,
                        tuple_slot.block() as int,
                        tuple_slot.row() as int,
                        column_ids@,
                    ) == Some(row.values())
                },
                None => read_at(
                    self@,
                    tuple_slot.block() as int,
                    tuple_slot.row() as int,
                    column_ids@,
                ) is None,
            },
    {
        if tuple_slot.block_index >= self.blocks.len() {
            return None;
        }
        self.blocks[tuple_slot.block_index].row_at_index(tuple_slot.row_index, column_ids)
    }
}

} // verus!
