//! Record batches as the store sees them: of each batch the store reads its
//! primary-key column, its number of rows and whether it fits the table's
//! schema; the rest of a batch's columns stay with the caller.

use vstd::prelude::*;

verus! {

/// What the store holds of one record batch.
#[derive(Clone, Debug, PartialEq, Eq)]
pub struct Batch {
    /// Whether the batch's schema is contained in the schema of the table
    /// that it is offered to, as the caller has determined.
    pub schema_compatible: bool,
    /// The primary-key column of the batch, one key per row.
    pub keys: Vec<i32>,
}

impl Batch {
    /// A batch with the given key column.
    pub fn new(schema_compatible: bool, keys: Vec<i32>) -> (batch: Batch)
        ensures
            batch.schema_compatible == schema_compatible,
            batch.keys@ == keys@,
    {
        Batch { schema_compatible, keys }
    }

    /// The number of rows of the batch.
    pub fn num_rows(&self) -> (n: usize)
        ensures
            n == self.keys@.len(),
    {
        self.keys.len()
    }
}

/// The key columns of the batches of one partition.
pub open spec fn partition_keys(batches: Seq<Batch>) -> Seq<Seq<i32>> {
    Seq::new(batches.len(), |b: int| batches[b].keys@)
}

/// The batches of a dataset, partition by partition.
pub open spec fn batches_view(partitions: Seq<Vec<Batch>>) -> Seq<Seq<Batch>> {
    Seq::new(partitions.len(), |p: int| partitions[p]@)
}

/// The key columns of partitioned batches: for each partition, for each of
/// its batches, the keys of the batch's rows.
pub open spec fn keys_of(batches: Seq<Seq<Batch>>) -> Seq<Seq<Seq<i32>>> {
    Seq::new(batches.len(), |p: int| partition_keys(batches[p]))
}

/// The key columns of a dataset.
pub open spec fn keys_view(partitions: Seq<Vec<Batch>>) -> Seq<Seq<Seq<i32>>> {
    keys_of(batches_view(partitions))
}

} // verus!
