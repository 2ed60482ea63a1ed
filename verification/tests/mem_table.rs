use std::collections::HashMap;
use std::sync::Arc;

use arrow::array::Int32Array;
use arrow::datatypes::{DataType, Field, Schema};
use arrow::record_batch::RecordBatch;
use datafusion_common::DataFusionError;
use tuple_store::batch::Batch;
use tuple_store::error::{SchemaUse, StoreError};
use tuple_store::filter::{
    first_primary_key, primary_key_filter, supported_filter, FilterExpr, Literal, Operand,
    Operator,
};
use tuple_store::index::{BatchLocator, PrimaryKeyIndex};
use tuple_store::partition::round_robin;
use tuple_store::store::{MemTable, ScanPlan};

fn build_test_batch(pk: i32) -> Batch {
    Batch::new(true, vec![pk, pk + 1, pk + 2])
}

fn key_equals(column: &str, key: i32) -> FilterExpr {
    FilterExpr::Binary {
        left: Operand::Column(column.to_string()),
        op: Operator::Eq,
        right: Operand::Literal(Literal::Int32(Some(key))),
    }
}

fn experiment(initial_data: Vec<Vec<Batch>>, inserted_data: Vec<Vec<Batch>>) -> Vec<Vec<Batch>> {
    let expected_count: u64 = inserted_data
        .iter()
        .flat_map(|batches| batches.iter().map(|batch| batch.num_rows() as u64))
        .sum();
    let mut initial_table =
        MemTable::try_new("a".to_string(), initial_data).expect("initial table");
    let groups: Vec<Batch> = inserted_data.into_iter().flatten().collect();
    let count = initial_table
        .insert_into(true, false, groups)
        .expect("insert");
    assert_eq!(count, expected_count);
    initial_table.partitions().clone()
}

/// What the store reads of a record batch offered to a table of the given
/// schema: whether the schema contains the batch's, and the key column.
fn summarize(schema: &Schema, batch: &RecordBatch) -> Batch {
    let primary_key_name = schema
        .metadata()
        .get("primary_key")
        .expect("every table must have a primary key");
    let keys = batch
        .column_by_name(primary_key_name)
        .expect("table must have primary key column")
        .as_any()
        .downcast_ref::<Int32Array>()
        .expect("failed to downcast")
        .values()
        .to_vec();
    Batch::new(schema.contains(&batch.schema()), keys)
}

fn try_new_table(schema: &Schema, partitions: Vec<Vec<RecordBatch>>) -> Result<MemTable, StoreError> {
    let summaries = partitions
        .iter()
        .map(|partition| partition.iter().map(|batch| summarize(schema, batch)).collect())
        .collect();
    MemTable::try_new(schema.metadata()["primary_key"].clone(), summaries)
}

#[test]
fn test_schema_validation_incompatible_column() {
    let mut schema_metadata = HashMap::new();
    schema_metadata.insert("primary_key".to_string(), "a".to_string());
    let schema1 = Arc::new(Schema::new_with_metadata(
        vec![
            Field::new("a", DataType::Int32, false),
            Field::new("b", DataType::Int32, false),
            Field::new("c", DataType::Int32, false),
        ],
        schema_metadata.clone(),
    ));

    let schema2 = Arc::new(Schema::new_with_metadata(
        vec![
            Field::new("a", DataType::Int32, false),
            Field::new("b", DataType::Float64, false),
            Field::new("c", DataType::Int32, false),
        ],
        schema_metadata,
    ));

    let batch = RecordBatch::try_new(
        schema1,
        vec![
            Arc::new(Int32Array::from(vec![1, 2, 3])),
            Arc::new(Int32Array::from(vec![4, 5, 6])),
            Arc::new(Int32Array::from(vec![7, 8, 9])),
        ],
    )
    .expect("batch");

    let e = try_new_table(&schema2, vec![vec![batch]]).unwrap_err();
    assert_eq!(StoreError::SchemaMismatch(SchemaUse::Batches), e);
    let e = DataFusionError::Plan(e.message());
    assert_eq!(
        "Error during planning: Mismatch between schema and batches",
        e.strip_backtrace()
    );
}

#[test]
fn test_schema_validation_different_column_count() {
    let mut schema_metadata = HashMap::new();
    schema_metadata.insert("primary_key".to_string(), "a".to_string());
    let schema1 = Arc::new(Schema::new_with_metadata(
        vec![
            Field::new("a", DataType::Int32, false),
            Field::new("c", DataType::Int32, false),
        ],
        schema_metadata.clone(),
    ));

    let schema2 = Arc::new(Schema::new_with_metadata(
        vec![
            Field::new("a", DataType::Int32, false),
            Field::new("b", DataType::Int32, false),
            Field::new("c", DataType::Int32, false),
        ],
        schema_metadata,
    ));

    let batch = RecordBatch::try_new(
        schema1,
        vec![
            Arc::new(Int32Array::from(vec![1, 2, 3])),
            Arc::new(Int32Array::from(vec![7, 5, 9])),
        ],
    )
    .expect("batch");

    let e = try_new_table(&schema2, vec![vec![batch]]).unwrap_err();
    assert_eq!(StoreError::SchemaMismatch(SchemaUse::Batches), e);
    let e = DataFusionError::Plan(e.message());
    assert_eq!(
        "Error during planning: Mismatch between schema and batches",
        e.strip_backtrace()
    );
}

#[test]
fn batches_of_the_table_schema_are_taken() {
    let mut schema_metadata = HashMap::new();
    schema_metadata.insert("primary_key".to_string(), "a".to_string());
    let schema = Arc::new(Schema::new_with_metadata(
        vec![
            Field::new("a", DataType::Int32, false),
            Field::new("b", DataType::Int32, false),
        ],
        schema_metadata,
    ));
    let batch = RecordBatch::try_new(
        schema.clone(),
        vec![
            Arc::new(Int32Array::from(vec![1, 2, 3])),
            Arc::new(Int32Array::from(vec![4, 5, 6])),
        ],
    )
    .expect("batch");
    let table = try_new_table(&schema, vec![vec![batch]]).expect("table");
    assert_eq!(&vec![vec![Batch::new(true, vec![1, 2, 3])]], table.partitions());
    assert_eq!(
        ScanPlan::PointLookup(BatchLocator { partition: 0, batch: 0, row: 2 }),
        table.scan(&vec![key_equals("a", 3)])
    );
}

#[test]
fn test_insert_into_single_partition() {
    let resulting_data_in_table =
        experiment(vec![vec![build_test_batch(1)]], vec![vec![build_test_batch(2)]]);
    assert_eq!(resulting_data_in_table[0].len(), 2);
}

#[test]
fn test_insert_into_single_partition_with_multi_partition() {
    let resulting_data_in_table = experiment(
        vec![vec![build_test_batch(1)]],
        vec![vec![build_test_batch(4)], vec![build_test_batch(7)]],
    );
    assert_eq!(resulting_data_in_table[0].len(), 3);
}

#[test]
fn test_insert_into_multi_partition_with_multi_partition() {
    let resulting_data_in_table = experiment(
        vec![vec![build_test_batch(1)], vec![build_test_batch(4)]],
        vec![
            vec![build_test_batch(7), build_test_batch(10)],
            vec![build_test_batch(13), build_test_batch(16)],
        ],
    );
    assert_eq!(resulting_data_in_table[0].len(), 3);
    assert_eq!(resulting_data_in_table[1].len(), 3);
}

#[test]
fn test_insert_from_empty_table() {
    let resulting_data_in_table = experiment(
        vec![vec![build_test_batch(1), build_test_batch(4)]],
        vec![vec![]],
    );
    assert_eq!(resulting_data_in_table[0].len(), 2);
}

#[test]
fn test_with_primary_key_filter() {
    let batch = Batch::new(true, vec![1, 2, 3]);
    let provider = MemTable::try_new("a".to_string(), vec![vec![batch]]).expect("table");
    let filter = key_equals("a", 1);
    assert_eq!(
        ScanPlan::PointLookup(BatchLocator { partition: 0, batch: 0, row: 0 }),
        provider.scan(&vec![filter])
    );
}

#[test]
fn schema_mismatch_comes_before_duplicate_key() {
    let partitions = vec![
        vec![Batch::new(true, vec![1, 1])],
        vec![Batch::new(true, vec![2]), Batch::new(false, vec![3])],
    ];
    assert_eq!(
        StoreError::SchemaMismatch(SchemaUse::Batches),
        MemTable::try_new("a".to_string(), partitions).unwrap_err()
    );
}

#[test]
fn index_has_one_entry_for_each_row() {
    let partitions = vec![
        vec![Batch::new(true, vec![10, 20, 30]), Batch::new(true, vec![40])],
        vec![],
        vec![Batch::new(true, vec![]), Batch::new(true, vec![5, -7])],
    ];
    let index = PrimaryKeyIndex::build(&partitions).expect("distinct keys");
    assert_eq!(6, index.len());
    assert_eq!(Some(BatchLocator { partition: 0, batch: 0, row: 0 }), index.get(10));
    assert_eq!(Some(BatchLocator { partition: 0, batch: 0, row: 2 }), index.get(30));
    assert_eq!(Some(BatchLocator { partition: 0, batch: 1, row: 0 }), index.get(40));
    assert_eq!(Some(BatchLocator { partition: 2, batch: 1, row: 0 }), index.get(5));
    assert_eq!(Some(BatchLocator { partition: 2, batch: 1, row: 1 }), index.get(-7));
    assert_eq!(None, index.get(0));
}

#[test]
fn index_of_nothing_is_empty() {
    let index = PrimaryKeyIndex::build(&vec![]).expect("no rows");
    assert_eq!(0, index.len());
    assert_eq!(None, index.get(1));
    assert_eq!(0, PrimaryKeyIndex::new().len());
}

#[test]
fn repeated_key_in_one_batch_fails() {
    let partitions = vec![vec![Batch::new(true, vec![1, 2, 1])]];
    assert_eq!(
        StoreError::DuplicateKey,
        PrimaryKeyIndex::build(&partitions).unwrap_err()
    );
}

#[test]
fn repeated_key_across_partitions_fails() {
    let partitions = vec![
        vec![Batch::new(true, vec![1, 2, 3])],
        vec![Batch::new(true, vec![4]), Batch::new(true, vec![5, 2])],
    ];
    assert_eq!(
        StoreError::DuplicateKey,
        PrimaryKeyIndex::build(&partitions).unwrap_err()
    );
    let e = MemTable::try_new("a".to_string(), partitions).unwrap_err();
    assert_eq!(StoreError::DuplicateKey, e);
    assert_eq!("Duplicate primary key value.", e.message());
}

#[test]
fn table_keeps_its_parts() {
    let partitions = vec![vec![build_test_batch(1)], vec![build_test_batch(4)]];
    let table = MemTable::try_new("id".to_string(), partitions.clone()).expect("table");
    assert_eq!("id", table.primary_key());
    assert_eq!(&partitions, table.partitions());
    assert_eq!(6, table.index().len());
    assert_eq!(
        Some(BatchLocator { partition: 1, batch: 0, row: 2 }),
        table.index().get(6)
    );
}

#[test]
fn point_lookup_finds_the_row_of_a_key() {
    let partitions = vec![
        vec![Batch::new(true, vec![1, 2, 3])],
        vec![Batch::new(true, vec![7]), Batch::new(true, vec![8, 9])],
    ];
    let table = MemTable::try_new("a".to_string(), partitions).expect("table");
    let plan = table.scan(&vec![key_equals("a", 9)]);
    assert_eq!(
        ScanPlan::PointLookup(BatchLocator { partition: 1, batch: 1, row: 1 }),
        plan
    );
    if let ScanPlan::PointLookup(loc) = plan {
        assert_eq!(9, table.partitions()[loc.partition][loc.batch].keys[loc.row]);
    }
}

#[test]
fn point_lookup_of_a_missing_key_is_empty() {
    let table =
        MemTable::try_new("a".to_string(), vec![vec![build_test_batch(1)]]).expect("table");
    assert_eq!(ScanPlan::NoMatch, table.scan(&vec![key_equals("a", 4)]));
}

#[test]
fn literal_on_the_left_is_a_point_lookup_too() {
    let table =
        MemTable::try_new("a".to_string(), vec![vec![build_test_batch(1)]]).expect("table");
    let filter = FilterExpr::Binary {
        left: Operand::Literal(Literal::Int32(Some(3))),
        op: Operator::Eq,
        right: Operand::Column("a".to_string()),
    };
    assert!(table.supported_filter(&filter));
    assert_eq!(Some(3), table.primary_key_filter(&filter));
    assert_eq!(
        ScanPlan::PointLookup(BatchLocator { partition: 0, batch: 0, row: 2 }),
        table.scan(&vec![filter])
    );
}

#[test]
fn other_shapes_are_full_scans() {
    let table =
        MemTable::try_new("a".to_string(), vec![vec![build_test_batch(1)]]).expect("table");
    assert_eq!(ScanPlan::FullScan, table.scan(&vec![]));
    assert_eq!(ScanPlan::FullScan, table.scan(&vec![key_equals("b", 1)]));
    let not_equal = FilterExpr::Binary {
        left: Operand::Column("a".to_string()),
        op: Operator::Other,
        right: Operand::Literal(Literal::Int32(Some(1))),
    };
    assert!(!table.supported_filter(&not_equal));
    assert_eq!(None, table.primary_key_filter(&not_equal));
    assert_eq!(ScanPlan::FullScan, table.scan(&vec![not_equal]));
    let compound = FilterExpr::Binary {
        left: Operand::Column("a".to_string()),
        op: Operator::Eq,
        right: Operand::Other,
    };
    assert_eq!(ScanPlan::FullScan, table.scan(&vec![compound]));
    let two_columns = FilterExpr::Binary {
        left: Operand::Column("a".to_string()),
        op: Operator::Eq,
        right: Operand::Column("a".to_string()),
    };
    assert_eq!(ScanPlan::FullScan, table.scan(&vec![two_columns]));
    assert_eq!(ScanPlan::FullScan, table.scan(&vec![FilterExpr::Other]));
}

#[test]
fn literals_that_are_no_key() {
    let pk = "a".to_string();
    let null = FilterExpr::Binary {
        left: Operand::Column("a".to_string()),
        op: Operator::Eq,
        right: Operand::Literal(Literal::Int32(None)),
    };
    assert!(supported_filter(&pk, &null));
    assert_eq!(None, primary_key_filter(&pk, &null));
    let text = FilterExpr::Binary {
        left: Operand::Literal(Literal::Other),
        op: Operator::Eq,
        right: Operand::Column("a".to_string()),
    };
    assert!(supported_filter(&pk, &text));
    assert_eq!(None, primary_key_filter(&pk, &text));
    assert!(!supported_filter(&pk, &key_equals("b", 1)));
    assert_eq!(None, primary_key_filter(&pk, &key_equals("b", 1)));
    assert!(supported_filter(&pk, &key_equals("a", 1)));
    assert_eq!(Some(1), primary_key_filter(&pk, &key_equals("a", 1)));
    assert!(!supported_filter(&pk, &FilterExpr::Other));
}

#[test]
fn first_predicate_with_a_key_decides() {
    let pk = "a".to_string();
    let filters = vec![
        FilterExpr::Other,
        key_equals("b", 5),
        key_equals("a", 2),
        key_equals("a", 3),
    ];
    assert_eq!(Some(2), first_primary_key(&pk, &filters));
    assert_eq!(None, first_primary_key(&pk, &vec![]));
    assert_eq!(None, first_primary_key(&pk, &vec![key_equals("b", 5)]));
    let table =
        MemTable::try_new("a".to_string(), vec![vec![build_test_batch(1)]]).expect("table");
    assert_eq!(
        ScanPlan::PointLookup(BatchLocator { partition: 0, batch: 0, row: 1 }),
        table.scan(&filters)
    );
}

#[test]
fn round_robin_of_seven_groups_over_three_partitions() {
    let out = round_robin(vec![0, 1, 2, 3, 4, 5, 6], 3);
    assert_eq!(vec![vec![0, 3, 6], vec![1, 4], vec![2, 5]], out);
}

#[test]
fn round_robin_edge_cases() {
    assert_eq!(vec![Vec::<u8>::new(), vec![], vec![]], round_robin(Vec::<u8>::new(), 3));
    assert_eq!(vec![vec![1, 2, 3]], round_robin(vec![1, 2, 3], 1));
    assert_eq!(
        vec![vec![1], vec![2], vec![], vec![]],
        round_robin(vec![1, 2], 4)
    );
    assert_eq!(
        vec![vec!["a", "c", "e"], vec!["b", "d", "f"]],
        round_robin(vec!["a", "b", "c", "d", "e", "f"], 2)
    );
}

#[test]
fn write_distributes_groups_in_turn() {
    let initial = vec![
        vec![Batch::new(true, vec![1])],
        vec![],
        vec![Batch::new(true, vec![2]), Batch::new(true, vec![3])],
    ];
    let mut table = MemTable::try_new("a".to_string(), initial).expect("table");
    let groups: Vec<Batch> = (0..7)
        .map(|i| Batch::new(true, vec![100 + i; (i + 1) as usize]))
        .collect();
    let count = table.write_all(groups.clone());
    assert_eq!(28, count);
    let partitions = table.partitions();
    assert_eq!(3, partitions.len());
    assert_eq!(
        vec![
            Batch::new(true, vec![1]),
            groups[0].clone(),
            groups[3].clone(),
            groups[6].clone()
        ],
        partitions[0]
    );
    assert_eq!(vec![groups[1].clone(), groups[4].clone()], partitions[1]);
    assert_eq!(
        vec![
            Batch::new(true, vec![2]),
            Batch::new(true, vec![3]),
            groups[2].clone(),
            groups[5].clone()
        ],
        partitions[2]
    );
}

#[test]
fn overwrite_is_not_implemented() {
    let mut table =
        MemTable::try_new("a".to_string(), vec![vec![build_test_batch(1)]]).expect("table");
    let e = table
        .insert_into(true, true, vec![build_test_batch(4)])
        .unwrap_err();
    assert_eq!(StoreError::Unimplemented, e);
    assert_eq!("Overwrite not implemented for MemoryTable yet", e.message());
    assert_eq!(&vec![vec![build_test_batch(1)]], table.partitions());
}

#[test]
fn insert_with_another_schema_fails() {
    let mut table =
        MemTable::try_new("a".to_string(), vec![vec![build_test_batch(1)]]).expect("table");
    assert_eq!(
        Err(StoreError::SchemaMismatch(SchemaUse::Insert)),
        table.insert_into(false, false, vec![build_test_batch(4)])
    );
    let e = table
        .insert_into(false, true, vec![build_test_batch(4)])
        .unwrap_err();
    assert_eq!(StoreError::SchemaMismatch(SchemaUse::Insert), e);
    assert_eq!(
        "Inserting query must have the same schema with the table.",
        e.message()
    );
    assert_eq!(&vec![vec![build_test_batch(1)]], table.partitions());
}

#[test]
fn rows_written_later_are_not_indexed() {
    let mut table =
        MemTable::try_new("a".to_string(), vec![vec![build_test_batch(1)]]).expect("table");
    assert_eq!(Ok(3), table.insert_into(true, false, vec![build_test_batch(4)]));
    assert_eq!(3, table.index().len());
    assert_eq!(ScanPlan::NoMatch, table.scan(&vec![key_equals("a", 4)]));
    assert_eq!(
        ScanPlan::PointLookup(BatchLocator { partition: 0, batch: 0, row: 1 }),
        table.scan(&vec![key_equals("a", 2)])
    );
    assert_eq!(Ok(3), table.insert_into(true, false, vec![build_test_batch(1)]));
    assert_eq!(3, table.partitions()[0].len());
}

#[test]
fn store_without_partitions_refuses_as_any_other() {
    let mut table = MemTable::try_new("a".to_string(), vec![]).expect("table");
    assert_eq!(
        Err(StoreError::Unimplemented),
        table.insert_into(true, true, vec![build_test_batch(1)])
    );
    assert_eq!(
        Err(StoreError::SchemaMismatch(SchemaUse::Insert)),
        table.insert_into(false, false, vec![build_test_batch(1)])
    );
    assert_eq!(
        Err(StoreError::SchemaMismatch(SchemaUse::Insert)),
        table.insert_into(false, true, vec![build_test_batch(1)])
    );
    assert_eq!(&Vec::<Vec<Batch>>::new(), table.partitions());
    assert_eq!(0, table.index().len());
}

#[test]
fn write_of_no_group_to_a_store_without_partitions() {
    let mut table = MemTable::try_new("a".to_string(), vec![]).expect("table");
    assert_eq!(0, table.write_all(vec![]));
    assert_eq!(Ok(0), table.insert_into(true, false, vec![]));
    assert_eq!(&Vec::<Vec<Batch>>::new(), table.partitions());
    assert_eq!(Vec::<Vec<u8>>::new(), round_robin(Vec::<u8>::new(), 0));
}

#[test]
fn write_of_no_group_changes_nothing() {
    let initial = vec![vec![build_test_batch(1)], vec![]];
    let mut table = MemTable::try_new("a".to_string(), initial.clone()).expect("table");
    assert_eq!(Ok(0), table.insert_into(true, false, vec![]));
    assert_eq!(&initial, table.partitions());
}
