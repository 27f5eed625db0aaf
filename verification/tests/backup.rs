use openlaundry_backend::backup::{BackupRecord, Table, TableJsonPostBody};
use openlaundry_backend::codec::decode_payload;

const TABLES: [Table; 4] = [Table::Customers, Table::LaundryRecords, Table::LaundryDocuments, Table::Expenses];

#[test]
fn fresh_record_holds_empty_tables() {
    let rec = BackupRecord::fresh(Some("a@b.c".to_string()));
    assert_eq!(rec.id, None);
    assert!(rec.created_at.is_none());
    assert_eq!(rec.email, Some("a@b.c".to_string()));
    for t in TABLES {
        assert_eq!(decode_payload(&rec.stored_payload(t)), Some("[]".to_string()));
    }
}

#[test]
fn fresh_record_without_email() {
    let rec = BackupRecord::fresh(None);
    assert_eq!(rec.email, Some(String::new()));
}

#[test]
fn missing_payload_reads_as_empty_text() {
    let mut rec = BackupRecord::fresh(None);
    rec.expenses = None;
    assert_eq!(rec.stored_payload(Table::Expenses), "");
}

#[test]
fn storing_an_outcome_replaces_one_table() {
    let mut rec = BackupRecord::fresh(None);
    let before = rec.stored_payload(Table::Customers);
    rec.store_payload(Table::LaundryDocuments, Some("X".to_string()));
    assert_eq!(rec.laundry_documents, Some("X".to_string()));
    assert_eq!(rec.stored_payload(Table::Customers), before);
    rec.store_payload(Table::LaundryDocuments, None);
    assert_eq!(rec.laundry_documents, Some("X".to_string()));
    rec.store_payload(Table::Customers, Some("C".to_string()));
    rec.store_payload(Table::LaundryRecords, Some("R".to_string()));
    rec.store_payload(Table::Expenses, Some("E".to_string()));
    assert_eq!(rec.customers, Some("C".to_string()));
    assert_eq!(rec.laundry_records, Some("R".to_string()));
    assert_eq!(rec.expenses, Some("E".to_string()));
}

#[test]
fn request_payload_by_table() {
    let body = TableJsonPostBody {
        email: Some("x".to_string()),
        customers: Some("c".to_string()),
        laundry_documents: None,
        laundry_records: Some("r".to_string()),
        expenses: Some("e".to_string()),
    };
    assert_eq!(body.payload(Table::Customers), Some("c".to_string()));
    assert_eq!(body.payload(Table::LaundryDocuments), None);
    assert_eq!(body.payload(Table::LaundryRecords), Some("r".to_string()));
    assert_eq!(body.payload(Table::Expenses), Some("e".to_string()));
}

#[test]
fn outcomes_apply_only_to_tables_the_request_carries() {
    let mut rec = BackupRecord::fresh(Some("a@b.c".to_string()));
    let before_records = rec.laundry_records.clone();
    let before_docs = rec.laundry_documents.clone();
    let body = TableJsonPostBody {
        email: Some("a@b.c".to_string()),
        customers: Some("c".to_string()),
        laundry_documents: Some("d".to_string()),
        laundry_records: None,
        expenses: Some("e".to_string()),
    };
    rec.store_outcomes(
        &body,
        Some("C".to_string()),
        Some("R".to_string()),
        None,
        Some("E".to_string()),
    );
    assert_eq!(rec.customers, Some("C".to_string()));
    assert_eq!(rec.laundry_records, before_records);
    assert_eq!(rec.laundry_documents, before_docs);
    assert_eq!(rec.expenses, Some("E".to_string()));
    assert_eq!(rec.email, Some("a@b.c".to_string()));
}
