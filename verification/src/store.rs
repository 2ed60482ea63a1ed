//! The partitioned batch store: record batches in partitions, the
//! primary-key index built over them once, scans that the index can turn
//! into point lookups, and round-robin writes.
//!
//! The index is built when the store is made and is not kept up by writes:
//! a row written later is stored, and is not found by a point lookup.

use crate::batch::{batches_view, keys_of, keys_view, partition_keys, Batch};
use crate::error::{SchemaUse, StoreError};
use crate::filter::{first_key, first_primary_key, is_key_equality, key_of, FilterExpr};
use crate::index::{
    batch_rows, distinct_keys, indexes, is_position, key_at, lemma_batch_rows_step, total_rows,
    BatchLocator, PrimaryKeyIndex,
};
use crate::partition::{round_robin, routed};
use vstd::prelude::*;

verus! {

/// What a scan has to do.
#[derive(Clone, Copy, Debug, PartialEq, Eq, Structural)]
pub enum ScanPlan {
    /// The one row at this place is the whole result.
    PointLookup(BatchLocator),
    /// A key was asked for that the index does not hold: the result is empty.
    NoMatch,
    /// Every batch of every partition is to be read.
    FullScan,
}

/// A store as its callers know it.
pub struct MemTableView {
    /// The name of the primary-key column.
    pub primary_key: Seq<char>,
    /// The batches of each partition, in their order.
    pub batches: Seq<Seq<Batch>>,
    /// The primary-key index.
    pub index: Map<i32, BatchLocator>,
}

impl MemTableView {
    /// The key column of each batch of each partition.
    pub open spec fn keys(self) -> Seq<Seq<Seq<i32>>> {
        keys_of(self.batches)
    }
}

/// Whether every batch of the dataset fits the table's schema.
pub open spec fn all_compatible(batches: Seq<Seq<Batch>>) -> bool {
    forall|p: int, b: int|
        0 <= p < batches.len() && 0 <= b < batches[p].len() ==> (
        #[trigger] batches[p][b]).schema_compatible
}

/// The partitions after a write of `groups`: each partition holds what it
/// held, followed by the groups that the round robin routes to it.
pub open spec fn written<T>(before: Seq<Seq<T>>, groups: Seq<T>) -> Seq<Seq<T>> {
    Seq::new(before.len(), |j: int| before[j] + routed(groups, before.len() as int, j))
}

/// The plan of a scan with the given predicates: a point lookup where the
/// first predicate that asks for a key asks for one that the index holds,
/// an empty result where the index does not hold it, and a full scan where
/// no predicate asks for a key.
pub open spec fn plan_of(table: MemTableView, filters: Seq<FilterExpr>) -> ScanPlan {
    match first_key(table.primary_key, filters) {
        Some(key) => if table.index.contains_key(key) {
            ScanPlan::PointLookup(table.index[key])
        } else {
            ScanPlan::NoMatch
        },
        None => ScanPlan::FullScan,
    }
}

/// Whether an insert is accepted: its schema must be that of the table,
/// and, that given, it must not ask to overwrite what the table holds.
pub open spec fn insert_verdict(schema_matches: bool, overwrite: bool) -> Result<(), StoreError> {
    if !schema_matches {
        Err(StoreError::SchemaMismatch(SchemaUse::Insert))
    } else if overwrite {
        Err(StoreError::Unimplemented)
    } else {
        Ok(())
    }
}

/// Decides whether an insert is accepted, before anything is written.
pub fn check_insert(schema_matches: bool, overwrite: bool) -> (res: Result<(), StoreError>)
    ensures
        res == insert_verdict(schema_matches, overwrite),
{
    if !schema_matches {
        return Err(StoreError::SchemaMismatch(SchemaUse::Insert));
    }
    if overwrite {
        return Err(StoreError::Unimplemented);
    }
    Ok(())
}

/// Record batches in partitions, with an index over their primary keys.
#[derive(Debug)]
pub struct MemTable {
    primary_key: String,
    batches: Vec<Vec<Batch>>,
    primary_key_index: PrimaryKeyIndex,
}

impl View for MemTable {
    type V = MemTableView;

    closed spec fn view(&self) -> MemTableView {
        MemTableView {
            primary_key: self.primary_key@,
            batches: batches_view(self.batches@),
            index: self.primary_key_index@,
        }
    }
}

/// The number of rows of the groups, counted group by group.
fn count_rows(groups: &Vec<Batch>) -> (count: u64)
    requires
        batch_rows(partition_keys(groups@)) <= u64::MAX,
    ensures
        count == batch_rows(partition_keys(groups@)),
{
    let ghost keys = partition_keys(groups@);
    let mut count: u64 = 0;
    let mut i: usize = 0;
    proof {
        assert(keys.take(0) =~= Seq::empty());
    }
    while i < groups.len()
        invariant
            keys == partition_keys(groups@),
            0 <= i <= groups@.len(),
            count == batch_rows(keys.take(i as int)),
            batch_rows(keys) <= u64::MAX,
        decreases groups@.len() - i,
    {
        proof {
            lemma_batch_rows_step(keys, i as int);
            lemma_batch_rows_prefix(keys, i + 1);
        }
        count = count + groups[i].num_rows() as u64;
        i = i + 1;
    }
    proof {
        assert(keys.take(i as int) =~= keys);
    }
    count
}

/// The first batches of a partition have no more rows than all of them.
proof fn lemma_batch_rows_prefix(batches: Seq<Seq<i32>>, n: int)
    requires
        0 <= n <= batches.len(),
    ensures
        batch_rows(batches.take(n)) <= batch_rows(batches),
    decreases batches.len() - n,
{
    if n < batches.len() {
        lemma_batch_rows_step(batches, n);
        lemma_batch_rows_prefix(batches, n + 1);
    } else {
        assert(batches.take(n) =~= batches);
    }
}

impl MemTable {
    /// Every entry of the index names a row of the store that has the
    /// entry's key.
    pub closed spec fn wf(&self) -> bool {
        forall|k: i32| #[trigger]
            self@.index.contains_key(k) ==> is_position(self@.keys(), self@.index[k]) && key_at(
                self@.keys(),
                self@.index[k],
            ) == k
    }

    /// Makes a store of the given partitions, whose primary-key column has
    /// the given name, and builds the index over all their rows.
    ///
    /// Fails with `SchemaMismatch` where a batch does not fit the schema,
    /// and else with `DuplicateKey` where two rows have the same key.
    pub fn try_new(primary_key: String, partitions: Vec<Vec<Batch>>) -> (res: Result<
        MemTable,
        StoreError,
    >)
        ensures
            match res {
                Ok(table) => {
                    &&& all_compatible(batches_view(partitions@))
                    &&& distinct_keys(keys_view(partitions@))
                    &&& table.wf()
                    &&& table@.primary_key == primary_key@
                    &&& table@.batches == batches_view(partitions@)
                    &&& indexes(table@.index, table@.keys())
                    &&& table@.index.len() == total_rows(table@.keys())
                },
                Err(e) => if all_compatible(batches_view(partitions@)) {
                    e == StoreError::DuplicateKey && !distinct_keys(keys_view(partitions@))
                } else {
                    e == StoreError::SchemaMismatch(SchemaUse::Batches)
                },
            },
    {
        let mut p: usize = 0;
        while p < partitions.len()
            invariant
                0 <= p <= partitions@.len(),
                forall|i: int, b: int|
                    0 <= i < p && 0 <= b < partitions@[i]@.len() ==> (
                    #[trigger] partitions@[i]@[b]).schema_compatible,
            decreases partitions@.len() - p,
        {
            let partition = &partitions[p];
            let mut b: usize = 0;
            while b < partition.len()
                invariant
                    0 <= p < partitions@.len(),
                    partition@ == partitions@[p as int]@,
                    0 <= b <= partition@.len(),
                    forall|i: int| 0 <= i < b ==> (#[trigger] partition@[i]).schema_compatible,
                decreases partition@.len() - b,
            {
                if !partition[b].schema_compatible {
                    assert(!batches_view(partitions@)[p as int][b as int].schema_compatible);
                    return Err(StoreError::SchemaMismatch(SchemaUse::Batches));
                }
                b = b + 1;
            }
            p = p + 1;
        }
        assert(all_compatible(batches_view(partitions@))) by {
            assert forall|i: int, b: int|
                0 <= i < batches_view(partitions@).len() && 0 <= b < batches_view(
                    partitions@,
                )[i].len() implies (#[trigger] batches_view(
                partitions@,
            )[i][b]).schema_compatible by {
                assert(partitions@[i]@[b].schema_compatible);
            }
        }
        match PrimaryKeyIndex::build(&partitions) {
            Ok(primary_key_index) => Ok(
                MemTable { primary_key, batches: partitions, primary_key_index },
            ),
            Err(e) => Err(e),
        }
    }

    /// The name of the primary-key column.
    pub fn primary_key(&self) -> (name: &String)
        ensures
            name@ == self@.primary_key,
    {
        &self.primary_key
    }

    /// The batches of the store, partition by partition.
    pub fn partitions(&self) -> (partitions: &Vec<Vec<Batch>>)
        ensures
            batches_view(partitions@) == self@.batches,
    {
        &self.batches
    }

    /// The primary-key index.
    pub fn index(&self) -> (index: &PrimaryKeyIndex)
        ensures
            index@ == self@.index,
    {
        &self.primary_key_index
    }

    /// Whether the index can answer the predicate: it compares the
    /// primary-key column for equality with a literal.
    pub fn supported_filter(&self, expr: &FilterExpr) -> (supported: bool)
        ensures
            supported == is_key_equality(self@.primary_key, *expr),
    {
        crate::filter::supported_filter(&self.primary_key, expr)
    }

    /// The key that the predicate asks for, where it compares the
    /// primary-key column for equality with a 32-bit integer.
    pub fn primary_key_filter(&self, expr: &FilterExpr) -> (key: Option<i32>)
        ensures
            key == key_of(self@.primary_key, *expr),
    {
        crate::filter::primary_key_filter(&self.primary_key, expr)
    }

    /// Plans a scan with the given predicates. A point lookup names a row
    /// of the store whose key is the key asked for.
    pub fn scan(&self, filters: &Vec<FilterExpr>) -> (plan: ScanPlan)
        requires
            self.wf(),
        ensures
            plan == plan_of(self@, filters@),
            match plan {
                ScanPlan::PointLookup(loc) => {
                    &&& is_position(self@.keys(), loc)
                    &&& first_key(self@.primary_key, filters@) == Some(key_at(self@.keys(), loc))
                },
                _ => true,
            },
    {
        match first_primary_key(&self.primary_key, filters) {
            Some(key) => match self.primary_key_index.get(key) {
                Some(loc) => ScanPlan::PointLookup(loc),
                None => ScanPlan::NoMatch,
            },
            None => ScanPlan::FullScan,
        }
    }

    /// Writes the groups to the partitions in turn, the group at index `i`
    /// to partition `i % P` of `P`, each partition being appended to once,
    /// and gives the number of rows written. The index is left as it is.
    /// A store without partitions takes no group: the write of none leaves
    /// it as it is and gives 0.
    pub fn write_all(&mut self, groups: Vec<Batch>) -> (count: u64)
        requires
            old(self).wf(),
            old(self)@.batches.len() > 0 || groups@.len() == 0,
            batch_rows(partition_keys(groups@)) <= u64::MAX,
        ensures
            final(self).wf(),
            count == batch_rows(partition_keys(groups@)),
            final(self)@.batches == written(old(self)@.batches, groups@),
            final(self)@.index == old(self)@.index,
            final(self)@.primary_key == old(self)@.primary_key,
    {
        let num_partitions: usize = self.batches.len();
        let count = count_rows(&groups);
        let ghost incoming = groups@;
        let mut new_batches = round_robin(groups, num_partitions);
        let mut j: usize = 0;
        while j < num_partitions
            invariant
                0 <= j <= num_partitions,
                num_partitions == old(self).batches@.len(),
                self.batches@.len() == num_partitions,
                new_batches@.len() == num_partitions,
                self.primary_key == old(self).primary_key,
                self.primary_key_index == old(self).primary_key_index,
                forall|k: int|
                    0 <= k < j ==> (#[trigger] self.batches@[k])@ == old(self).batches@[k]@
                        + routed(incoming, num_partitions as int, k),
                forall|k: int|
                    j <= k < num_partitions ==> (#[trigger] self.batches@[k])@ == old(
                        self,
                    ).batches@[k]@,
                forall|k: int|
                    j <= k < num_partitions ==> (#[trigger] new_batches@[k])@ == routed(
                        incoming,
                        num_partitions as int,
                        k,
                    ),
            decreases num_partitions - j,
        {
            self.batches[j].append(&mut new_batches[j]);
            j = j + 1;
        }
        proof {
            let before = old(self)@.batches;
            let after = written(before, incoming);
            assert(self@.batches =~= after);
            assert forall|k: i32| #[trigger] self@.index.contains_key(k) implies is_position(
                self@.keys(),
                self@.index[k],
            ) && key_at(self@.keys(), self@.index[k]) == k by {
                let loc = old(self)@.index[k];
                assert(is_position(old(self)@.keys(), loc));
                assert(after[loc.partition as int] == before[loc.partition as int] + routed(
                    incoming,
                    num_partitions as int,
                    loc.partition as int,
                ));
            }
        }
        count
    }

    /// Writes the groups of an insert, as `write_all` does.
    ///
    /// Fails with `SchemaMismatch`, changing nothing, where the schema of
    /// what is to be inserted is not that of the table, and else with
    /// `Unimplemented`, changing nothing, where the insert is to overwrite
    /// what the table holds. What `write_all` asks of the store and of the
    /// groups is asked only of an insert that is not refused.
    pub fn insert_into(&mut self, schema_matches: bool, overwrite: bool, groups: Vec<Batch>) -> (res:
        Result<u64, StoreError>)
        requires
            old(self).wf(),
            insert_verdict(schema_matches, overwrite) is Ok ==> old(self)@.batches.len() > 0
                || groups@.len() == 0,
            insert_verdict(schema_matches, overwrite) is Ok ==> batch_rows(
                partition_keys(groups@),
            ) <= u64::MAX,
        ensures
            final(self).wf(),
            match res {
                Ok(count) => {
                    &&& insert_verdict(schema_matches, overwrite) is Ok
                    &&& count == batch_rows(partition_keys(groups@))
                    &&& final(self)@.batches == written(old(self)@.batches, groups@)
                    &&& final(self)@.index == old(self)@.index
                    &&& final(self)@.primary_key == old(self)@.primary_key
                },
                Err(e) => {
                    &&& *final(self) == *old(self)
                    &&& insert_verdict(schema_matches, overwrite) == Err::<(), StoreError>(e)
                },
            },
    {
        match check_insert(schema_matches, overwrite) {
            Ok(()) => Ok(self.write_all(groups)),
            Err(e) => Err(e),
        }
    }
}

} // verus!
