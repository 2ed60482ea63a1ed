//! Recoverable errors of the storage engine.

use vstd::prelude::*;

verus! {

/// A change to a record that is already stored.
#[derive(Clone, Copy, Debug, PartialEq, Eq, Structural)]
pub enum RowChange {
    /// Overwriting columns of the record.
    Update,
    /// Deleting the record.
    Delete,
}

/// What was held against the schema of a table.
#[derive(Clone, Copy, Debug, PartialEq, Eq, Structural)]
pub enum SchemaUse {
    /// The batches that a table is made of.
    Batches,
    /// The rows that an insert brings.
    Insert,
}

/// The data-shape errors that the store hands back to its caller.
///
/// Broken call conventions (column ids that are unsorted or repeated) are not
/// among them: they are excluded by the `requires` of the functions concerned.
#[derive(Clone, Copy, Debug, PartialEq, Eq, Structural)]
pub enum StoreError {
    /// An insert was attempted on a block whose slots are all allocated.
    CapacityExceeded,
    /// The change named a slot that was never allocated.
    NoSuchRecord(RowChange),
    /// What was offered does not fit the schema declared for the table.
    SchemaMismatch(SchemaUse),
    /// Two rows of the initial data carry the same primary key.
    DuplicateKey,
    /// The requested write mode (overwrite) is not supported.
    Unimplemented,
}

impl StoreError {
    /// The text of the error.
    pub open spec fn text(self) -> Seq<char> {
        match self {
            StoreError::CapacityExceeded => "cannot add a row to a full block"@,
            StoreError::NoSuchRecord(RowChange::Update) => "cannot update a row that doesn't exist"@,
            StoreError::NoSuchRecord(RowChange::Delete) => "cannot delete a row that doesn't exist"@,
            StoreError::SchemaMismatch(SchemaUse::Batches) => "Mismatch between schema and batches"@,
            StoreError::SchemaMismatch(
                SchemaUse::Insert,
            ) => "Inserting query must have the same schema with the table."@,
            StoreError::DuplicateKey => "Duplicate primary key value."@,
            StoreError::Unimplemented => "Overwrite not implemented for MemoryTable yet"@,
        }
    }

    /// The text of the error, for a caller to show.
    pub fn message(&self) -> (text: String)
        ensures
            text@ == self.text(),
    {
        match self {
            StoreError::CapacityExceeded => "cannot add a row to a full block".to_string(),
            StoreError::NoSuchRecord(RowChange::Update) => "cannot update a row that doesn't exist".to_string(),
            StoreError::NoSuchRecord(RowChange::Delete) => "cannot delete a row that doesn't exist".to_string(),
            StoreError::SchemaMismatch(SchemaUse::Batches) => "Mismatch between schema and batches".to_string(),
            StoreError::SchemaMismatch(
                SchemaUse::Insert,
            ) => "Inserting query must have the same schema with the table.".to_string(),
            StoreError::DuplicateKey => "Duplicate primary key value.".to_string(),
            StoreError::Unimplemented => "Overwrite not implemented for MemoryTable yet".to_string(),
        }
    }
}

} // verus!
