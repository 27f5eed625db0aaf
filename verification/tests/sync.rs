use openlaundry_backend::model::{BaseModel, CustomerJson, ExpenseJson, LaundryDocumentJson};
use openlaundry_backend::sync::{backup_parsed_table, backup_table, find_key, key_of, live_records, merge_record, merge_records, stamp_of};

fn customer(uuid: Option<&str>, updated_at: Option<u64>, name: &str) -> CustomerJson {
    CustomerJson {
        uuid: uuid.map(|s| s.to_string()),
        created_at: Some(1),
        updated_at,
        deleted_at: None,
        name: Some(name.to_string()),
        phone: None,
        address: None,
    }
}

fn names(v: &Vec<CustomerJson>) -> Vec<String> {
    v.iter().map(|c| c.name.clone().unwrap()).collect()
}

#[test]
fn key_and_stamp_defaults() {
    let c = customer(None, None, "a");
    assert_eq!(key_of(&c), "");
    assert_eq!(stamp_of(&c), 0);
    let d = customer(Some("k"), Some(9), "d");
    assert_eq!(key_of(&d), "k");
    assert_eq!(stamp_of(&d), 9);
}

#[test]
fn find_key_finds_first() {
    let db = vec![customer(Some("a"), Some(1), "x"), customer(Some("b"), Some(1), "y"), customer(Some("b"), Some(2), "z")];
    assert_eq!(find_key(&db, &"b".to_string()), Some(1));
    assert_eq!(find_key(&db, &"c".to_string()), None);
}

#[test]
fn unknown_record_is_appended() {
    let mut db = vec![customer(Some("a"), Some(1), "a1")];
    merge_record(&mut db, &customer(Some("b"), Some(1), "b1"));
    assert_eq!(names(&db), vec!["a1", "b1"]);
}

#[test]
fn newer_record_replaces_stored() {
    let mut db = vec![customer(Some("a"), Some(1), "old"), customer(Some("b"), Some(1), "b")];
    merge_record(&mut db, &customer(Some("a"), Some(5), "new"));
    assert_eq!(names(&db), vec!["new", "b"]);
}

#[test]
fn equally_recent_record_replaces_stored() {
    let mut db = vec![customer(Some("a"), Some(5), "old")];
    merge_record(&mut db, &customer(Some("a"), Some(5), "new"));
    assert_eq!(names(&db), vec!["new"]);
}

#[test]
fn older_record_is_ignored() {
    let mut db = vec![customer(Some("a"), Some(5), "stored")];
    merge_record(&mut db, &customer(Some("a"), Some(4), "stale"));
    assert_eq!(names(&db), vec!["stored"]);
}

#[test]
fn missing_time_counts_as_zero() {
    let mut db = vec![customer(Some("a"), None, "stored")];
    merge_record(&mut db, &customer(Some("a"), None, "incoming"));
    assert_eq!(names(&db), vec!["incoming"]);
    let mut db = vec![customer(Some("a"), Some(1), "stored")];
    merge_record(&mut db, &customer(Some("a"), None, "incoming"));
    assert_eq!(names(&db), vec!["stored"]);
}

#[test]
fn every_stored_duplicate_is_replaced() {
    let mut db = vec![
        customer(Some("a"), Some(1), "a1"),
        customer(Some("b"), Some(1), "b"),
        customer(Some("a"), Some(9), "a2"),
    ];
    merge_record(&mut db, &customer(Some("a"), Some(2), "n"));
    assert_eq!(names(&db), vec!["n", "b", "n"]);
}

#[test]
fn records_without_uuid_share_one_key() {
    let mut db: Vec<CustomerJson> = Vec::new();
    let incoming = vec![customer(None, Some(7), "one"), customer(None, Some(7), "two"), customer(None, Some(7), "three")];
    merge_records(&mut db, &incoming);
    assert_eq!(names(&db), vec!["three"]);
}

#[test]
fn batch_is_merged_in_order() {
    let mut db = vec![customer(Some("a"), Some(3), "a"), customer(Some("c"), Some(3), "c")];
    let incoming = vec![
        customer(Some("b"), Some(1), "b1"),
        customer(Some("a"), Some(2), "a-stale"),
        customer(Some("b"), Some(4), "b2"),
        customer(Some("c"), Some(3), "c2"),
    ];
    merge_records(&mut db, &incoming);
    assert_eq!(names(&db), vec!["a", "c2", "b2"]);
}

#[test]
fn resending_a_batch_changes_nothing() {
    let mut db = vec![customer(Some("a"), Some(3), "a")];
    let incoming = vec![customer(Some("a"), Some(4), "a2"), customer(Some("z"), Some(1), "z")];
    merge_records(&mut db, &incoming);
    let once = names(&db);
    merge_records(&mut db, &incoming);
    assert_eq!(names(&db), once);
}

#[test]
fn unsent_records_are_kept() {
    let mut db = vec![customer(Some("a"), Some(3), "a"), customer(Some("b"), Some(3), "b")];
    merge_records(&mut db, &vec![customer(Some("b"), Some(5), "b2")]);
    assert_eq!(names(&db)[0], "a");
    assert_eq!(db[0].updated_at, Some(3));
}

#[test]
fn deleted_records_are_dropped() {
    let mut gone = customer(Some("g"), Some(1), "gone");
    gone.deleted_at = Some(10);
    let kept = live_records(vec![customer(Some("a"), Some(1), "a"), gone, customer(Some("b"), Some(1), "b")]);
    assert_eq!(names(&kept), vec!["a", "b"]);
}

#[test]
fn backup_without_readable_store_is_empty() {
    let r = backup_table(None, Some(vec![customer(Some("a"), Some(1), "a")]));
    assert!(r.is_empty());
}

#[test]
fn backup_without_readable_request_keeps_store() {
    let mut gone = customer(Some("g"), Some(1), "gone");
    gone.deleted_at = Some(2);
    let r = backup_table(Some(vec![customer(Some("a"), Some(1), "a"), gone]), None);
    assert_eq!(names(&r), vec!["a"]);
}

#[test]
fn backup_merges_then_drops_deleted() {
    let mut deleting = customer(Some("a"), Some(9), "a-deleted");
    deleting.deleted_at = Some(9);
    let r = backup_table(
        Some(vec![customer(Some("a"), Some(1), "a"), customer(Some("b"), Some(1), "b")]),
        Some(vec![deleting, customer(Some("c"), Some(1), "c")]),
    );
    assert_eq!(names(&r), vec!["b", "c"]);
}

#[test]
fn other_tables_merge_alike() {
    let doc = |uuid: &str, t: u64, name: &str| LaundryDocumentJson {
        uuid: Some(uuid.to_string()),
        created_at: None,
        updated_at: Some(t),
        deleted_at: None,
        name: Some(name.to_string()),
        date: Some(20210101),
    };
    let r = backup_table(Some(vec![doc("d", 1, "old")]), Some(vec![doc("d", 2, "new")]));
    assert_eq!(r.len(), 1);
    assert_eq!(r[0].name, Some("new".to_string()));

    let exp = |uuid: &str, t: u64, amount: f64| ExpenseJson {
        uuid: Some(uuid.to_string()),
        created_at: None,
        updated_at: Some(t),
        deleted_at: None,
        date: None,
        amount: Some(amount.to_bits()),
    };
    let r = backup_table(Some(vec![exp("e", 5, 1.5)]), Some(vec![exp("e", 4, 2.5), exp("f", 1, 3.0)]));
    assert_eq!(r.len(), 2);
    assert_eq!(f64::from_bits(r[0].amount.unwrap()), 1.5);
    assert_eq!(f64::from_bits(r[1].amount.unwrap()), 3.0);
    assert_eq!(r[1].deleted_at(), None);
}

#[test]
fn resending_equally_recent_records_changes_nothing() {
    let mut db = vec![customer(Some("a"), Some(5), "stored")];
    let incoming = vec![
        customer(Some("a"), Some(5), "first"),
        customer(Some("a"), Some(5), "second"),
        customer(Some("a"), Some(4), "older"),
    ];
    merge_records(&mut db, &incoming);
    assert_eq!(names(&db), vec!["second"]);
    merge_records(&mut db, &incoming);
    assert_eq!(names(&db), vec!["second"]);
}

#[test]
fn stored_duplicates_survive_an_older_record() {
    let mut db = vec![customer(Some("a"), Some(5), "a1"), customer(Some("a"), Some(1), "a2")];
    merge_records(&mut db, &vec![customer(Some("a"), Some(3), "n")]);
    assert_eq!(names(&db), vec!["a1", "a2"]);
}

#[test]
fn backing_up_the_same_upload_twice_stores_the_same() {
    let mut deleting = customer(Some("a"), Some(9), "a-deleted");
    deleting.deleted_at = Some(9);
    let upload = vec![
        customer(Some("b"), Some(1), "b-old"),
        deleting,
        customer(Some("a"), Some(3), "a-stale"),
        customer(Some("b"), Some(2), "b-new"),
    ];
    let dup = |v: &Vec<CustomerJson>| v.iter().map(|c| c.duplicate()).collect::<Vec<_>>();
    let first = backup_table(Some(vec![customer(Some("a"), Some(1), "a"), customer(Some("c"), Some(1), "c")]), Some(dup(&upload)));
    assert_eq!(names(&first), vec!["c", "b-new"]);
    let second = backup_table(Some(dup(&first)), Some(dup(&upload)));
    assert_eq!(names(&second), names(&first));
}

#[test]
fn unparsable_stored_json_counts_as_empty_table() {
    let r = backup_parsed_table(Some(None), Some(Some(vec![customer(Some("a"), Some(1), "a")])));
    assert_eq!(names(&r), vec!["a"]);
}

#[test]
fn unparsable_incoming_json_counts_as_no_records() {
    let r = backup_parsed_table(Some(Some(vec![customer(Some("a"), Some(1), "a")])), Some(None));
    assert_eq!(names(&r), vec!["a"]);
    let r = backup_parsed_table::<CustomerJson>(None, Some(Some(vec![customer(Some("b"), Some(1), "b")])));
    assert!(r.is_empty());
}
