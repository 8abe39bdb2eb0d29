use indexer_events::contracts::Contract;
use indexer_events::models::{create_placeholders, QueryError};

#[test]
fn parameters_are_numbered_through_all_rows() {
    assert_eq!(create_placeholders(1, 1), Ok("($1)".to_string()));
    assert_eq!(create_placeholders(1, 3), Ok("($1, $2, $3)".to_string()));
    assert_eq!(create_placeholders(2, 2), Ok("($1, $2), ($3, $4)".to_string()));
    assert_eq!(
        create_placeholders(4, 3),
        Ok("($1, $2, $3), ($4, $5, $6), ($7, $8, $9), ($10, $11, $12)".to_string())
    );
}

#[test]
fn a_statement_needs_rows_and_fields() {
    assert_eq!(create_placeholders(0, 3), Err(QueryError::NoItems));
    assert_eq!(create_placeholders(0, 0), Err(QueryError::NoItems));
    assert_eq!(create_placeholders(2, 0), Err(QueryError::NoFields));
    assert_eq!(create_placeholders(2, usize::MAX), Err(QueryError::TooManyFields));
    assert_eq!(create_placeholders(3, usize::MAX / 2), Err(QueryError::TooManyFields));
}

#[test]
fn contract_rows_are_stored_with_six_fields_each() {
    assert_eq!(Contract::field_count(), 7);
    assert_eq!(
        Contract::insert_query(2),
        Ok("INSERT INTO contracts VALUES ($1, $2, $3, $4, $5, $6), ($7, $8, $9, $10, $11, $12) ON CONFLICT (contract_account_id) DO UPDATE SET  inconsistency_found_at_timestamp = excluded.inconsistency_found_at_timestamp,  inconsistency_found_at_block_height = excluded.inconsistency_found_at_block_height".to_string())
    );
    assert_eq!(Contract::insert_query(0), Err(QueryError::NoItems));
}
