//! The mathematical model of a block: what a block is to its callers, and
//! what each operation does to it, with no byte offsets and no bitmaps.

use vstd::prelude::*;

verus! {

/// A run of `n` zero bytes.
pub open spec fn zeros(n: nat) -> Seq<u8> {
    Seq::new(n, |i: int| 0u8)
}

/// What a projected row says of column `c`: `None` where the row does not
/// list the column, `Some(None)` where it lists it with null, `Some(Some(v))`
/// where it lists it with the value `v`.
pub open spec fn supplied(ids: Seq<usize>, values: Seq<Option<Seq<u8>>>, c: int) -> Option<
    Option<Seq<u8>>,
> {
    if exists|k: int| 0 <= k < ids.len() && ids[k] == c {
        Some(values[choose|k: int| 0 <= k < ids.len() && ids[k] == c])
    } else {
        None
    }
}

/// In a row with strictly ascending ids, what the row says of the column at
/// position `k` is the value at position `k`.
pub proof fn lemma_supplied_at(ids: Seq<usize>, values: Seq<Option<Seq<u8>>>, k: int)
    requires
        forall|i: int, j: int| 0 <= i < j < ids.len() ==> ids[i] < ids[j],
        0 <= k < ids.len(),
    ensures
        supplied(ids, values, ids[k] as int) == Some(values[k]),
{
    let c = ids[k] as int;
    let found = choose|j: int| 0 <= j < ids.len() && ids[j] == c;
    if found < k {
        assert(ids[found] < ids[k]);
    } else if k < found {
        assert(ids[k] < ids[found]);
    }
}

/// What the first `k + 1` entries of a row say of a column other than the
/// one at position `k` is what the first `k` entries say of it.
pub proof fn lemma_supplied_extend(ids: Seq<usize>, values: Seq<Option<Seq<u8>>>, k: int, c: int)
    requires
        forall|i: int, j: int| 0 <= i < j < ids.len() ==> ids[i] < ids[j],
        0 <= k < ids.len(),
        k < values.len(),
        c != ids[k],
    ensures
        supplied(ids.take(k + 1), values.take(k + 1), c) == supplied(
            ids.take(k),
            values.take(k),
            c,
        ),
{
    let short = ids.take(k);
    let long = ids.take(k + 1);
    if exists|j: int| 0 <= j < long.len() && long[j] == c {
        let a = choose|j: int| 0 <= j < long.len() && long[j] == c;
        assert(a < k);
        assert(short[a] == c);
        let b = choose|j: int| 0 <= j < short.len() && short[j] == c;
        if a < b {
            assert(ids[a] < ids[b]);
        } else if b < a {
            assert(ids[b] < ids[a]);
        }
    } else {
        assert forall|j: int| 0 <= j < short.len() implies short[j] != c by {
            assert(long[j] == short[j]);
        }
    }
}

/// One allocated slot of a block.
pub struct SlotView {
    /// Whether the slot holds a live record (it was inserted and not deleted).
    pub live: bool,
    /// For each column, whether the slot holds a value (not null) for it.
    pub valid: Seq<bool>,
    /// For each column, the bytes stored in the slot's cell.
    pub bytes: Seq<Seq<u8>>,
}

impl SlotView {
    /// The value of column `c` in this slot, `None` standing for null.
    pub open spec fn cell(self, c: int) -> Option<Seq<u8>> {
        if self.valid[c] {
            Some(self.bytes[c])
        } else {
            None
        }
    }
}

/// A block as its callers know it.
pub struct BlockView {
    /// The fixed byte width of each column.
    pub column_sizes: Seq<usize>,
    /// How many slots the block has.
    pub num_slots: nat,
    /// The slots allocated so far, in the order of allocation.
    pub slots: Seq<SlotView>,
}

impl BlockView {
    /// Every allocated slot has one cell of the right width for each column,
    /// and no more slots are allocated than the block has.
    pub open spec fn wf(self) -> bool {
        &&& self.slots.len() <= self.num_slots
        &&& forall|r: int|
            0 <= r < self.slots.len() ==> {
                &&& (#[trigger] self.slots[r]).valid.len() == self.column_sizes.len()
                &&& self.slots[r].bytes.len() == self.column_sizes.len()
                &&& forall|c: int|
                    0 <= c < self.column_sizes.len() ==> (#[trigger] self.slots[r].bytes[c]).len()
                        == self.column_sizes[c]
            }
    }

    /// The number of slots ever allocated.
    pub open spec fn num_records(self) -> nat {
        self.slots.len()
    }

    /// Whether a row can be stored in this block: each listed column exists,
    /// and each value has at least as many bytes as its column is wide.
    pub open spec fn accepts(self, ids: Seq<usize>, values: Seq<Option<Seq<u8>>>) -> bool {
        forall|k: int|
            0 <= k < ids.len() ==> {
                &&& (#[trigger] ids[k]) < self.column_sizes.len()
                &&& values[k] is Some ==> values[k]->0.len() >= self.column_sizes[ids[k] as int]
            }
    }

    /// Whether each value of the row has exactly the width of its column.
    pub open spec fn fits_exactly(self, ids: Seq<usize>, values: Seq<Option<Seq<u8>>>) -> bool {
        forall|k: int|
            0 <= k < ids.len() ==> {
                &&& (#[trigger] ids[k]) < self.column_sizes.len()
                &&& values[k] is Some ==> values[k]->0.len() == self.column_sizes[ids[k] as int]
            }
    }

    /// The slot that an insert of the row allocates: a listed value is
    /// stored, cut to the column's width; every other cell is null and zero.
    pub open spec fn inserted_slot(self, ids: Seq<usize>, values: Seq<Option<Seq<u8>>>) -> SlotView {
        SlotView {
            live: true,
            valid: Seq::new(
                self.column_sizes.len(),
                |c: int| supplied(ids, values, c) matches Some(Some(_)),
            ),
            bytes: Seq::new(
                self.column_sizes.len(),
                |c: int|
                    match supplied(ids, values, c) {
                        Some(Some(v)) => v.subrange(0, self.column_sizes[c] as int),
                        _ => zeros(self.column_sizes[c] as nat),
                    },
            ),
        }
    }

    /// The block after an insert of the row into a block that has room.
    pub open spec fn insert(self, ids: Seq<usize>, values: Seq<Option<Seq<u8>>>) -> BlockView {
        BlockView { slots: self.slots.push(self.inserted_slot(ids, values)), ..self }
    }

    /// Slot `r` after an update with the row: a listed value is stored and
    /// the cell made valid, a listed null makes the cell null and keeps its
    /// bytes, an unlisted column is untouched. Liveness is not changed.
    pub open spec fn updated_slot(
        self,
        r: int,
        ids: Seq<usize>,
        values: Seq<Option<Seq<u8>>>,
    ) -> SlotView {
        SlotView {
            live: self.slots[r].live,
            valid: Seq::new(
                self.column_sizes.len(),
                |c: int|
                    match supplied(ids, values, c) {
                        Some(v) => v is Some,
                        None => self.slots[r].valid[c],
                    },
            ),
            bytes: Seq::new(
                self.column_sizes.len(),
                |c: int|
                    match supplied(ids, values, c) {
                        Some(Some(v)) => v.subrange(0, self.column_sizes[c] as int),
                        _ => self.slots[r].bytes[c],
                    },
            ),
        }
    }

    /// The block after an update of the allocated slot `r` with the row.
    pub open spec fn update(self, r: int, ids: Seq<usize>, values: Seq<Option<Seq<u8>>>) -> BlockView {
        BlockView { slots: self.slots.update(r, self.updated_slot(r, ids, values)), ..self }
    }

    /// A slot after its deletion: not live, every cell null and zero.
    pub open spec fn deleted_slot(self) -> SlotView {
        SlotView {
            live: false,
            valid: Seq::new(self.column_sizes.len(), |c: int| false),
            bytes: Seq::new(self.column_sizes.len(), |c: int| zeros(self.column_sizes[c] as nat)),
        }
    }

    /// The block after the deletion of the allocated slot `r`. The slot stays
    /// allocated: the number of records is unchanged.
    pub open spec fn delete(self, r: int) -> BlockView {
        BlockView { slots: self.slots.update(r, self.deleted_slot()), ..self }
    }

    /// Whether slot `r` is allocated and holds a record that was not deleted.
    pub open spec fn holds_live(self, r: int) -> bool {
        0 <= r < self.slots.len() && self.slots[r].live
    }

    /// Whether a record can be read through the columns `ids`: they are
    /// strictly ascending, and each is a column of the block.
    pub open spec fn readable(self, ids: Seq<usize>) -> bool {
        &&& forall|i: int, j: int| 0 <= i < j < ids.len() ==> ids[i] < ids[j]
        &&& forall|k: int| 0 <= k < ids.len() ==> ids[k] < self.column_sizes.len()
    }

    /// The cells of slot `r` for the columns `ids`, in their order.
    pub open spec fn cells(self, r: int, ids: Seq<usize>) -> Seq<Option<Seq<u8>>> {
        Seq::new(ids.len(), |k: int| self.slots[r].cell(ids[k] as int))
    }

    /// What a read of slot `r` through the columns `ids` gives. It is `None`
    /// in three cases alike: the slot was never allocated, the record was
    /// deleted, or none of the columns asked for holds a value.
    pub open spec fn read(self, r: int, ids: Seq<usize>) -> Option<Seq<Option<Seq<u8>>>> {
        if r < 0 || r >= self.slots.len() || !self.slots[r].live {
            None
        } else if forall|k: int| 0 <= k < ids.len() ==> (#[trigger] self.cells(r, ids)[k]) is None {
            None
        } else {
            Some(self.cells(r, ids))
        }
    }
}

/// Round trip: a row inserted into a block with room is read back unchanged
/// through its own column ids, provided that each of its values has exactly
/// the width of its column and that it holds at least one value.
pub proof fn law_insert_then_read(b: BlockView, ids: Seq<usize>, values: Seq<Option<Seq<u8>>>)
    requires
        b.wf(),
        b.num_records() < b.num_slots,
        forall|i: int, j: int| 0 <= i < j < ids.len() ==> ids[i] < ids[j],
        ids.len() == values.len(),
        b.fits_exactly(ids, values),
        exists|k: int| 0 <= k < values.len() && values[k] is Some,
    ensures
        b.insert(ids, values).wf(),
        b.insert(ids, values).read(b.num_records() as int, ids) == Some(values),
{
    let after = b.insert(ids, values);
    let r = b.num_records() as int;
    assert forall|k: int| 0 <= k < ids.len() implies after.cells(r, ids)[k] == values[k] by {
        lemma_supplied_at(ids, values, k);
        if values[k] is Some {
            assert(values[k]->0.subrange(0, b.column_sizes[ids[k] as int] as int)
                =~= values[k]->0);
        }
    }
    assert(after.cells(r, ids) =~= values);
    let k = choose|k: int| 0 <= k < values.len() && values[k] is Some;
    assert(after.cells(r, ids)[k] is Some);
    assert forall|r2: int| 0 <= r2 < after.slots.len() implies {
        &&& (#[trigger] after.slots[r2]).valid.len() == after.column_sizes.len()
        &&& after.slots[r2].bytes.len() == after.column_sizes.len()
        &&& forall|c: int|
            0 <= c < after.column_sizes.len() ==> (#[trigger] after.slots[r2].bytes[c]).len()
                == after.column_sizes[c]
    } by {
        if r2 < r {
            assert(after.slots[r2] == b.slots[r2]);
        } else {
            assert forall|c: int| 0 <= c < after.column_sizes.len() implies (
            #[trigger] after.slots[r2].bytes[c]).len() == after.column_sizes[c] by {
                if supplied(ids, values, c) matches Some(Some(v)) {
                    let j = choose|j: int| 0 <= j < ids.len() && ids[j] == c;
                    lemma_supplied_at(ids, values, j);
                }
            }
        }
    }
}

/// A row that holds no value at all is stored, yet a read of its slot
/// through the same column ids gives `None`, as for a deleted record.
pub proof fn law_insert_of_nulls_reads_absent(
    b: BlockView,
    ids: Seq<usize>,
    values: Seq<Option<Seq<u8>>>,
)
    requires
        b.num_records() < b.num_slots,
        forall|i: int, j: int| 0 <= i < j < ids.len() ==> ids[i] < ids[j],
        ids.len() == values.len(),
        b.accepts(ids, values),
        forall|k: int| 0 <= k < values.len() ==> values[k] is None,
    ensures
        b.insert(ids, values).num_records() == b.num_records() + 1,
        b.insert(ids, values).read(b.num_records() as int, ids) is None,
{
    let after = b.insert(ids, values);
    let r = b.num_records() as int;
    assert forall|k: int| 0 <= k < ids.len() implies (#[trigger] after.cells(r, ids)[k])
        is None by {
        lemma_supplied_at(ids, values, k);
    }
}

/// An update of a live record is read back through the row's own column
/// ids as the row itself, with nothing of what the columns held before,
/// provided that each of the row's values has exactly the width of its
/// column and that it holds at least one value.
pub proof fn law_update_then_read(
    b: BlockView,
    r: int,
    ids: Seq<usize>,
    values: Seq<Option<Seq<u8>>>,
)
    requires
        0 <= r < b.num_records(),
        b.slots[r].live,
        forall|i: int, j: int| 0 <= i < j < ids.len() ==> ids[i] < ids[j],
        ids.len() == values.len(),
        b.fits_exactly(ids, values),
        exists|k: int| 0 <= k < values.len() && values[k] is Some,
    ensures
        b.update(r, ids, values).read(r, ids) == Some(values),
{
    let after = b.update(r, ids, values);
    assert forall|k: int| 0 <= k < ids.len() implies after.cells(r, ids)[k] == values[k] by {
        lemma_supplied_at(ids, values, k);
        if values[k] is Some {
            assert(values[k]->0.subrange(0, b.column_sizes[ids[k] as int] as int)
                =~= values[k]->0);
        }
    }
    assert(after.cells(r, ids) =~= values);
    let k = choose|k: int| 0 <= k < values.len() && values[k] is Some;
    assert(after.cells(r, ids)[k] is Some);
}

/// After a delete, a read of the slot gives `None`, whatever it held and
/// through whatever columns it is read.
pub proof fn law_delete_then_read(b: BlockView, r: int, ids: Seq<usize>)
    requires
        0 <= r < b.num_records(),
    ensures
        b.delete(r).read(r, ids) is None,
        b.delete(r).num_records() == b.num_records(),
{
}

/// A deleted record stays deleted: after any further insert, update or
/// delete on the block, a read of its slot still gives `None`.
pub proof fn law_deleted_stays_absent(
    b: BlockView,
    r: int,
    other: int,
    ids: Seq<usize>,
    values: Seq<Option<Seq<u8>>>,
    read_ids: Seq<usize>,
)
    requires
        0 <= r < b.num_records(),
        !b.slots[r].live,
        0 <= other < b.num_records(),
    ensures
        b.insert(ids, values).read(r, read_ids) is None,
        b.update(other, ids, values).read(r, read_ids) is None,
        b.delete(other).read(r, read_ids) is None,
{
}

} // verus!
