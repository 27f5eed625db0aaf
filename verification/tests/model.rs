use openlaundry_backend::model::{BaseModel, CustomerJson, LaundryRecordJson};

fn record() -> LaundryRecordJson {
    LaundryRecordJson {
        uuid: Some("r1".to_string()),
        created_at: Some(1),
        updated_at: Some(2),
        deleted_at: None,
        customer_uuid: Some("c1".to_string()),
        laundry_document_uuid: None,
        weight: Some(2.5f64.to_bits()),
        price: Some(15000),
        record_type: Some(1),
        start: Some(3),
        done: None,
        received: None,
        e_pay_id: None,
        wash: Some(true),
        dry: Some(false),
        iron: None,
        note: Some("express".to_string()),
    }
}

#[test]
fn getters_read_fields() {
    let r = record();
    assert_eq!(r.created_at(), Some(1));
    assert_eq!(r.updated_at(), Some(2));
    assert_eq!(r.deleted_at(), None);
    assert_eq!(r.uuid(), Some("r1".to_string()));
}

#[test]
fn setters_write_one_field() {
    let mut r = record();
    r.set_created_at(10);
    r.set_updated_at(11);
    r.set_deleted_at(12);
    assert_eq!(r.created_at(), Some(10));
    assert_eq!(r.updated_at(), Some(11));
    assert_eq!(r.deleted_at(), Some(12));
    assert_eq!(r.uuid(), Some("r1".to_string()));
    assert_eq!(r.price, Some(15000));
    assert_eq!(r.note, Some("express".to_string()));
}

#[test]
fn duplicate_copies_every_field() {
    let r = record();
    let d = r.duplicate();
    assert_eq!(format!("{:?}", r), format!("{:?}", d));
    assert_eq!(f64::from_bits(d.weight.unwrap()), 2.5);
}

#[test]
fn customer_without_uuid() {
    let c = CustomerJson {
        uuid: None,
        created_at: None,
        updated_at: None,
        deleted_at: None,
        name: None,
        phone: Some("0812".to_string()),
        address: None,
    };
    assert_eq!(c.uuid(), None);
    assert_eq!(c.duplicate().phone, Some("0812".to_string()));
}
