//! Projected rows: a row restricted to a chosen subset of columns.

use vstd::prelude::*;

verus! {

/// Whether every id is smaller than the one after it: sorted ascending,
/// with no id occurring twice.
pub open spec fn strictly_ascending(ids: Seq<usize>) -> bool {
    forall|i: int, j: int| 0 <= i < j < ids.len() ==> ids[i] < ids[j]
}

/// Tests whether the ids are strictly ascending.
pub fn is_strictly_ascending(ids: &[usize]) -> (ascending: bool)
    ensures
        ascending == strictly_ascending(ids@),
{
    let mut i: usize = 1;
    while i < ids.len()
        invariant
            1 <= i,
            forall|a: int, b: int| 0 <= a < b < i && b < ids@.len() ==> ids@[a] < ids@[b],
        decreases ids@.len() - i,
    {
        if ids[i - 1] >= ids[i] {
            return false;
        }
        assert forall|a: int, b: int| 0 <= a < b < i + 1 && b < ids@.len() implies ids@[a]
            < ids@[b] by {
            if b == i && a < i - 1 {
                assert(ids@[a] < ids@[i - 1]);
            }
        }
        i = i + 1;
    }
    true
}

/// The bytes of an optional value, `None` standing for null.
pub open spec fn value_view(value: Option<Vec<u8>>) -> Option<Seq<u8>> {
    match value {
        Some(bytes) => Some(bytes@),
        None => None,
    }
}

/// The values of a row as mathematical sequences, position by position.
pub open spec fn values_view(values: Seq<Option<Vec<u8>>>) -> Seq<Option<Seq<u8>>> {
    Seq::new(values.len(), |i: int| value_view(values[i]))
}

/// A row seen through a list of column ids, each paired by position with a
/// value or with null.
#[derive(Debug, PartialEq, Eq)]
pub struct ProjectedRow {
    column_ids: Vec<usize>,
    column_values: Vec<Option<Vec<u8>>>,
}

impl ProjectedRow {
    /// The column ids of the row, in order.
    pub closed spec fn ids(&self) -> Seq<usize> {
        self.column_ids@
    }

    /// The value held for each id, `None` where the row holds null.
    pub closed spec fn values(&self) -> Seq<Option<Seq<u8>>> {
        values_view(self.column_values@)
    }

    /// The ids are strictly ascending and each has its value.
    pub open spec fn wf(&self) -> bool {
        &&& strictly_ascending(self.ids())
        &&& self.ids().len() == self.values().len()
    }

    /// Pairs column ids with their values.
    pub fn new(column_ids: Vec<usize>, column_values: Vec<Option<Vec<u8>>>) -> (row: ProjectedRow)
        requires
            strictly_ascending(column_ids@),
            column_ids.len() == column_values.len(),
        ensures
            row.wf(),
            row.ids() == column_ids@,
            row.values() == values_view(column_values@),
    {
        ProjectedRow { column_ids, column_values }
    }

    /// The column ids of the row.
    pub fn column_ids(&self) -> (ids: &Vec<usize>)
        ensures
            ids@ == self.ids(),
    {
        &self.column_ids
    }

    /// The values of the row, in the order of its column ids.
    pub fn column_values(&self) -> (values: &Vec<Option<Vec<u8>>>)
        ensures
            values_view(values@) == self.values(),
    {
        &self.column_values
    }
}

} // verus!
