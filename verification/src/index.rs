//! The primary-key index: an ordered map from a key to the place of its row,
//! built once over a whole dataset, with every key occurring once.

use crate::batch::{keys_view, Batch};
use crate::error::StoreError;
use std::collections::BTreeMap;
use vstd::prelude::*;

verus! {

broadcast use {vstd::std_specs::btree::group_btree_axioms, vstd::laws_cmp::group_laws_cmp};

/// The place of a row in a partitioned store: its partition, its batch in
/// the partition and its row in the batch.
#[derive(Clone, Copy, Debug, PartialEq, Eq, Structural)]
pub struct BatchLocator {
    pub partition: usize,
    pub batch: usize,
    pub row: usize,
}

/// Whether `loc` names a row of the dataset `keys`, given as the key column
/// of each batch of each partition.
pub open spec fn is_position(keys: Seq<Seq<Seq<i32>>>, loc: BatchLocator) -> bool {
    &&& loc.partition < keys.len()
    &&& loc.batch < keys[loc.partition as int].len()
    &&& loc.row < keys[loc.partition as int][loc.batch as int].len()
}

/// The primary key of the row at `loc`.
pub open spec fn key_at(keys: Seq<Seq<Seq<i32>>>, loc: BatchLocator) -> i32 {
    keys[loc.partition as int][loc.batch as int][loc.row as int]
}

/// Whether no two rows of the dataset have the same primary key.
pub open spec fn distinct_keys(keys: Seq<Seq<Seq<i32>>>) -> bool {
    forall|a: BatchLocator, b: BatchLocator|
        is_position(keys, a) && is_position(keys, b) && a != b ==> key_at(keys, a) != key_at(
            keys,
            b,
        )
}

/// Whether `index` maps the key of each row of the dataset to the place of
/// that row, and holds nothing else.
pub open spec fn indexes(index: Map<i32, BatchLocator>, keys: Seq<Seq<Seq<i32>>>) -> bool {
    &&& forall|loc: BatchLocator| #[trigger]
        is_position(keys, loc) ==> index.contains_key(key_at(keys, loc)) && index[key_at(
            keys,
            loc,
        )] == loc
    &&& forall|k: i32| #[trigger]
        index.contains_key(k) ==> is_position(keys, index[k]) && key_at(keys, index[k]) == k
}

/// The number of rows in a sequence of batches.
pub open spec fn batch_rows(batches: Seq<Seq<i32>>) -> nat
    decreases batches.len(),
{
    if batches.len() == 0 {
        0
    } else {
        batch_rows(batches.drop_last()) + batches.last().len()
    }
}

/// The number of rows in the whole dataset.
pub open spec fn total_rows(keys: Seq<Seq<Seq<i32>>>) -> nat
    decreases keys.len(),
{
    if keys.len() == 0 {
        0
    } else {
        total_rows(keys.drop_last()) + batch_rows(keys.last())
    }
}

/// Whether `loc` lies before batch `b` of partition `p` in the order in
/// which a dataset is walked.
spec fn precedes(loc: BatchLocator, p: int, b: int) -> bool {
    loc.partition < p || (loc.partition == p && loc.batch < b)
}

/// Whether `index` holds exactly the rows of the dataset that lie before
/// batch `b` of partition `p`.
spec fn indexes_before(
    index: Map<i32, BatchLocator>,
    keys: Seq<Seq<Seq<i32>>>,
    p: int,
    b: int,
) -> bool {
    &&& forall|loc: BatchLocator|
        #![trigger is_position(keys, loc)]
        is_position(keys, loc) && precedes(loc, p, b) ==> index.contains_key(key_at(keys, loc))
            && index[key_at(keys, loc)] == loc
    &&& forall|k: i32| #[trigger]
        index.contains_key(k) ==> is_position(keys, index[k]) && precedes(index[k], p, b)
            && key_at(keys, index[k]) == k
}

/// Counting the rows of one batch more.
pub proof fn lemma_batch_rows_step(batches: Seq<Seq<i32>>, b: int)
    requires
        0 <= b < batches.len(),
    ensures
        batch_rows(batches.take(b + 1)) == batch_rows(batches.take(b)) + batches[b].len(),
{
    assert(batches.take(b + 1).drop_last() =~= batches.take(b));
}

/// Counting the rows of one partition more.
pub proof fn lemma_total_rows_step(keys: Seq<Seq<Seq<i32>>>, p: int)
    requires
        0 <= p < keys.len(),
    ensures
        total_rows(keys.take(p + 1)) == total_rows(keys.take(p)) + batch_rows(keys[p]),
{
    assert(keys.take(p + 1).drop_last() =~= keys.take(p));
}

/// An index that holds every row of the dataset, each under its key, shows
/// that the keys are distinct.
pub proof fn lemma_indexed_keys_distinct(index: Map<i32, BatchLocator>, keys: Seq<Seq<Seq<i32>>>)
    requires
        indexes(index, keys),
    ensures
        distinct_keys(keys),
{
    assert forall|a: BatchLocator, b: BatchLocator|
        is_position(keys, a) && is_position(keys, b) && a != b implies key_at(keys, a) != key_at(
        keys,
        b,
    ) by {
        if key_at(keys, a) == key_at(keys, b) {
            assert(index[key_at(keys, a)] == a);
            assert(index[key_at(keys, b)] == b);
        }
    }
}

/// An ordered map from primary key to the place of the row that has it.
#[derive(Debug)]
pub struct PrimaryKeyIndex {
    entries: BTreeMap<i32, BatchLocator>,
}

impl View for PrimaryKeyIndex {
    type V = Map<i32, BatchLocator>;

    closed spec fn view(&self) -> Map<i32, BatchLocator> {
        self.entries@
    }
}

impl PrimaryKeyIndex {
    /// An index with no entry.
    pub fn new() -> (index: PrimaryKeyIndex)
        ensures
            index@ == Map::<i32, BatchLocator>::empty(),
    {
        PrimaryKeyIndex { entries: BTreeMap::new() }
    }

    /// The number of keys in the index.
    pub fn len(&self) -> (n: usize)
        ensures
            n == self@.len(),
    {
        self.entries.len()
    }

    /// The place of the row with the given key, if the index holds the key.
    pub fn get(&self, key: i32) -> (found: Option<BatchLocator>)
        ensures
            found == if self@.contains_key(key) {
                Some(self@[key])
            } else {
                None::<BatchLocator>
            },
    {
        match self.entries.get(&key) {
            Some(loc) => Some(*loc),
            None => None,
        }
    }

    /// Enters the rows of one batch, whose key column is `keys`. Fails at
    /// the first key that the index already holds, and then holds the rows
    /// before it.
    fn add_batch(&mut self, partition: usize, batch: usize, keys: &Vec<i32>) -> (res:
        Result<(), StoreError>)
        ensures
            match res {
                Ok(()) => {
                    &&& forall|r: int|
                        0 <= r < keys@.len() ==> !old(self)@.contains_key(#[trigger] keys@[r])
                    &&& forall|r: int, s: int| 0 <= r < s < keys@.len() ==> keys@[r] != keys@[s]
                    &&& forall|k: i32|
                        #![trigger final(self)@.contains_key(k)]
                        #![trigger old(self)@.contains_key(k)]
                        #![trigger keys@.contains(k)]
                        final(self)@.contains_key(k) <==> old(self)@.contains_key(k)
                            || keys@.contains(k)
                    &&& forall|k: i32|
                        old(self)@.contains_key(k) ==> final(self)@[k] == old(self)@[k]
                    &&& forall|r: int|
                        0 <= r < keys@.len() ==> final(self)@[#[trigger] keys@[r]] == (BatchLocator {
                            partition,
                            batch,
                            row: r as usize,
                        })
                    &&& final(self)@.len() == old(self)@.len() + keys@.len()
                },
                Err(e) => {
                    &&& e == StoreError::DuplicateKey
                    &&& exists|r: int|
                        0 <= r < keys@.len() && (old(self)@.contains_key(#[trigger] keys@[r])
                            || exists|s: int| 0 <= s < r && #[trigger] keys@[s] == keys@[r])
                },
            },
    {
        let mut r: usize = 0;
        while r < keys.len()
            invariant
                0 <= r <= keys@.len(),
                forall|i: int| 0 <= i < r ==> !old(self)@.contains_key(#[trigger] keys@[i]),
                forall|i: int, j: int| 0 <= i < j < r ==> keys@[i] != keys@[j],
                forall|k: i32|
                    self@.contains_key(k) <==> old(self)@.contains_key(k) || exists|i: int|
                        0 <= i < r && #[trigger] keys@[i] == k,
                forall|k: i32| old(self)@.contains_key(k) ==> self@[k] == old(self)@[k],
                forall|i: int|
                    0 <= i < r ==> self@[#[trigger] keys@[i]] == (BatchLocator {
                        partition,
                        batch,
                        row: i as usize,
                    }),
                self@.len() == old(self)@.len() + r,
            decreases keys@.len() - r,
        {
            let key: i32 = keys[r];
            let ghost before = self@;
            let previous = self.entries.insert(key, BatchLocator { partition, batch, row: r });
            if previous.is_some() {
                proof {
                    if !old(self)@.contains_key(key) {
                        let s = choose|i: int| 0 <= i < r && #[trigger] keys@[i] == key;
                        assert(keys@[s] == keys@[r as int]);
                    }
                }
                return Err(StoreError::DuplicateKey);
            }
            proof {
                assert(self@ == before.insert(key, BatchLocator { partition, batch, row: r }));
                assert(self@.dom() =~= before.dom().insert(key));
                assert forall|k: i32|
                    self@.contains_key(k) <==> old(self)@.contains_key(k) || exists|i: int|
                        0 <= i < r + 1 && #[trigger] keys@[i] == k by {
                    if k == key {
                        assert(keys@[r as int] == k);
                    }
                }
            }
            r = r + 1;
        }
        proof {
            assert forall|k: i32|
                self@.contains_key(k) <==> old(self)@.contains_key(k) || keys@.contains(k) by {
                if keys@.contains(k) {
                    let i = choose|i: int| 0 <= i < keys@.len() && keys@[i] == k;
                    assert(keys@[i] == k);
                }
            }
        }
        Ok(())
    }

    /// Builds the index of a dataset: partition by partition, batch by
    /// batch, row by row, each key is entered with the place of its row.
    ///
    /// Succeeds where no key occurs twice in the dataset, with one entry
    /// for each row. Fails with `DuplicateKey` at the first key met again,
    /// and then gives no index.
    pub fn build(partitions: &Vec<Vec<Batch>>) -> (res: Result<PrimaryKeyIndex, StoreError>)
        ensures
            match res {
                Ok(index) => {
                    &&& distinct_keys(keys_view(partitions@))
                    &&& indexes(index@, keys_view(partitions@))
                    &&& index@.len() == total_rows(keys_view(partitions@))
                },
                Err(e) => {
                    &&& e == StoreError::DuplicateKey
                    &&& !distinct_keys(keys_view(partitions@))
                },
            },
    {
        let ghost keys = keys_view(partitions@);
        let mut index = PrimaryKeyIndex::new();
        let mut p: usize = 0;
        proof {
            assert(keys.take(0) =~= Seq::empty());
        }
        while p < partitions.len()
            invariant
                keys == keys_view(partitions@),
                0 <= p <= partitions@.len(),
                indexes_before(index@, keys, p as int, 0),
                index@.len() == total_rows(keys.take(p as int)),
            decreases partitions@.len() - p,
        {
            let partition = &partitions[p];
            let mut b: usize = 0;
            proof {
                assert(keys[p as int].take(0) =~= Seq::empty());
            }
            while b < partition.len()
                invariant
                    keys == keys_view(partitions@),
                    0 <= p < partitions@.len(),
                    partition@ == partitions@[p as int]@,
                    0 <= b <= partition@.len(),
                    indexes_before(index@, keys, p as int, b as int),
                    index@.len() == total_rows(keys.take(p as int)) + batch_rows(
                        keys[p as int].take(b as int),
                    ),
                decreases partition@.len() - b,
            {
                let ghost before = index@;
                let added = index.add_batch(p, b, &partition[b].keys);
                proof {
                    assert(keys[p as int][b as int] == partition@[b as int].keys@);
                    assert(partition@[b as int].keys@.len() == partition@[b as int].keys.len());
                }
                match added {
                    Ok(()) => {
                        proof {
                            lemma_batch_added(keys, before, index@, p as int, b as int);
                            lemma_batch_rows_step(keys[p as int], b as int);
                        }
                    },
                    Err(e) => {
                        proof {
                            lemma_batch_refused(keys, before, p as int, b as int);
                        }
                        return Err(e);
                    },
                }
                b = b + 1;
            }
            proof {
                assert(keys[p as int].take(b as int) =~= keys[p as int]);
                lemma_total_rows_step(keys, p as int);
            }
            p = p + 1;
        }
        proof {
            assert(keys.take(p as int) =~= keys);
            lemma_indexed_keys_distinct(index@, keys);
        }
        Ok(index)
    }
}

/// An index of the rows before a batch, once the batch's rows have been
/// entered, is an index of the rows before the next batch.
proof fn lemma_batch_added(
    keys: Seq<Seq<Seq<i32>>>,
    before: Map<i32, BatchLocator>,
    after: Map<i32, BatchLocator>,
    p: int,
    b: int,
)
    requires
        0 <= p < keys.len(),
        0 <= b < keys[p].len(),
        p <= usize::MAX,
        b <= usize::MAX,
        keys[p][b].len() <= usize::MAX,
        indexes_before(before, keys, p, b),
        forall|r: int| 0 <= r < keys[p][b].len() ==> !before.contains_key(#[trigger] keys[p][b][r]),
        forall|k: i32| after.contains_key(k) <==> before.contains_key(k) || keys[p][b].contains(k),
        forall|k: i32| before.contains_key(k) ==> after[k] == before[k],
        forall|r: int|
            0 <= r < keys[p][b].len() ==> after[#[trigger] keys[p][b][r]] == (BatchLocator {
                partition: p as usize,
                batch: b as usize,
                row: r as usize,
            }),
    ensures
        indexes_before(after, keys, p, b + 1),
{
    let batch = keys[p][b];
    assert forall|loc: BatchLocator|
        #![trigger is_position(keys, loc)]
        is_position(keys, loc) && precedes(loc, p, b + 1) implies after.contains_key(
        key_at(keys, loc),
    ) && after[key_at(keys, loc)] == loc by {
        if precedes(loc, p, b) {
            assert(before.contains_key(key_at(keys, loc)));
        } else {
            assert(batch[loc.row as int] == key_at(keys, loc));
            assert(batch.contains(key_at(keys, loc)));
        }
    }
    assert forall|k: i32| #[trigger] after.contains_key(k) implies is_position(keys, after[k])
        && precedes(after[k], p, b + 1) && key_at(keys, after[k]) == k by {
        if before.contains_key(k) {
        } else {
            assert(batch.contains(k));
            let r = choose|r: int| 0 <= r < batch.len() && batch[r] == k;
            assert(after[batch[r]].row == r);
        }
    }
}

/// Where a batch holds a key that the index of the rows before it holds
/// already, or holds a key twice, the keys of the dataset are not distinct.
proof fn lemma_batch_refused(keys: Seq<Seq<Seq<i32>>>, before: Map<i32, BatchLocator>, p: int, b: int)
    requires
        0 <= p < keys.len(),
        0 <= b < keys[p].len(),
        p <= usize::MAX,
        b <= usize::MAX,
        keys[p][b].len() <= usize::MAX,
        indexes_before(before, keys, p, b),
        exists|r: int|
            0 <= r < keys[p][b].len() && (before.contains_key(#[trigger] keys[p][b][r])
                || exists|s: int| 0 <= s < r && #[trigger] keys[p][b][s] == keys[p][b][r]),
    ensures
        !distinct_keys(keys),
{
    let batch = keys[p][b];
    let r = choose|r: int|
        0 <= r < batch.len() && (before.contains_key(#[trigger] batch[r]) || exists|s: int|
            0 <= s < r && #[trigger] batch[s] == batch[r]);
    let here = BatchLocator { partition: p as usize, batch: b as usize, row: r as usize };
    assert(is_position(keys, here));
    if before.contains_key(batch[r]) {
        let there = before[batch[r]];
        assert(is_position(keys, there) && precedes(there, p, b));
        assert(key_at(keys, there) == key_at(keys, here));
        assert(there != here);
    } else {
        let s = choose|s: int| 0 <= s < r && #[trigger] batch[s] == batch[r];
        let there = BatchLocator { partition: p as usize, batch: b as usize, row: s as usize };
        assert(is_position(keys, there));
        assert(key_at(keys, there) == key_at(keys, here));
        assert(there != here);
    }
}

} // verus!
