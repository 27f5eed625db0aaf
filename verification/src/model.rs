//! Record models kept in a backup and the trait the merge works through.

use vstd::prelude::*;

verus! {

/// The view of an optional string: its characters, if any.
pub open spec fn opt_chars(o: Option<String>) -> Option<Seq<char>> {
    match o {
        Some(s) => Some(s@),
        None => None,
    }
}

/// Copies an optional string; the copy equals the original.
pub fn copy_opt_string(o: &Option<String>) -> (r: Option<String>)
    ensures
        r == *o,
{
    match o {
        Some(s) => Some(s.clone()),
        None => None,
    }
}

/// Bookkeeping shared by every kind of record kept in a backup: an identity
/// and three timestamps.
pub trait BaseModel: Sized {
    /// The record's identity, as characters.
    spec fn spec_uuid(&self) -> Option<Seq<char>>;

    spec fn spec_created_at(&self) -> Option<u64>;

    spec fn spec_updated_at(&self) -> Option<u64>;

    spec fn spec_deleted_at(&self) -> Option<u64>;

    fn created_at(&self) -> (r: Option<u64>)
        ensures
            r == self.spec_created_at(),
    ;

    fn updated_at(&self) -> (r: Option<u64>)
        ensures
            r == self.spec_updated_at(),
    ;

    fn deleted_at(&self) -> (r: Option<u64>)
        ensures
            r == self.spec_deleted_at(),
    ;

    fn set_created_at(&mut self, created_at: u64)
        ensures
            final(self).spec_created_at() == Some(created_at),
            final(self).spec_updated_at() == old(self).spec_updated_at(),
            final(self).spec_deleted_at() == old(self).spec_deleted_at(),
            final(self).spec_uuid() == old(self).spec_uuid(),
    ;

    fn set_updated_at(&mut self, updated_at: u64)
        ensures
            final(self).spec_updated_at() == Some(updated_at),
            final(self).spec_created_at() == old(self).spec_created_at(),
            final(self).spec_deleted_at() == old(self).spec_deleted_at(),
            final(self).spec_uuid() == old(self).spec_uuid(),
    ;

    fn set_deleted_at(&mut self, deleted_at: u64)
        ensures
            final(self).spec_deleted_at() == Some(deleted_at),
            final(self).spec_created_at() == old(self).spec_created_at(),
            final(self).spec_updated_at() == old(self).spec_updated_at(),
            final(self).spec_uuid() == old(self).spec_uuid(),
    ;

    fn uuid(&self) -> (r: Option<String>)
        ensures
            opt_chars(r) == self.spec_uuid(),
    ;

    /// A copy of the record, equal to it in every field.
    fn duplicate(&self) -> (r: Self)
        ensures
            r == *self,
    ;
}

/// A customer of the laundry.
#[derive(Debug)]
pub struct CustomerJson {
    pub uuid: Option<String>,
    pub created_at: Option<u64>,
    pub updated_at: Option<u64>,
    pub deleted_at: Option<u64>,
    pub name: Option<String>,
    pub phone: Option<String>,
    pub address: Option<String>,
}

impl BaseModel for CustomerJson {
    open spec fn spec_uuid(&self) -> Option<Seq<char>> {
        opt_chars(self.uuid)
    }

    open spec fn spec_created_at(&self) -> Option<u64> {
        self.created_at
    }

    open spec fn spec_updated_at(&self) -> Option<u64> {
        self.updated_at
    }

    open spec fn spec_deleted_at(&self) -> Option<u64> {
        self.deleted_at
    }

    fn created_at(&self) -> (r: Option<u64>)
        ensures
            r == self.created_at,
    {
        self.created_at
    }

    fn updated_at(&self) -> (r: Option<u64>)
        ensures
            r == self.updated_at,
    {
        self.updated_at
    }

    fn deleted_at(&self) -> (r: Option<u64>)
        ensures
            r == self.deleted_at,
    {
        self.deleted_at
    }

    fn set_created_at(&mut self, created_at: u64)
        ensures
            *final(self) == (CustomerJson { created_at: Some(created_at), ..*old(self) }),
    {
        self.created_at = Some(created_at);
    }

    fn set_updated_at(&mut self, updated_at: u64)
        ensures
            *final(self) == (CustomerJson { updated_at: Some(updated_at), ..*old(self) }),
    {
        self.updated_at = Some(updated_at);
    }

    fn set_deleted_at(&mut self, deleted_at: u64)
        ensures
            *final(self) == (CustomerJson { deleted_at: Some(deleted_at), ..*old(self) }),
    {
        self.deleted_at = Some(deleted_at);
    }

    fn uuid(&self) -> (r: Option<String>)
        ensures
            r == self.uuid,
    {
        copy_opt_string(&self.uuid)
    }

    fn duplicate(&self) -> (r: Self) {
        CustomerJson {
            uuid: copy_opt_string(&self.uuid),
            created_at: self.created_at,
            updated_at: self.updated_at,
            deleted_at: self.deleted_at,
            name: copy_opt_string(&self.name),
            phone: copy_opt_string(&self.phone),
            address: copy_opt_string(&self.address),
        }
    }
}

/// One laundry job of a customer. `weight` holds the bit pattern of the
/// weight as an IEEE-754 double, carried through unchanged.
#[derive(Debug)]
pub struct LaundryRecordJson {
    pub uuid: Option<String>,
    pub created_at: Option<u64>,
    pub updated_at: Option<u64>,
    pub deleted_at: Option<u64>,
    pub customer_uuid: Option<String>,
    pub laundry_document_uuid: Option<String>,
    pub weight: Option<u64>,
    pub price: Option<u64>,
    pub record_type: Option<u32>,
    pub start: Option<u64>,
    pub done: Option<u64>,
    pub received: Option<u64>,
    pub e_pay_id: Option<u64>,
    pub wash: Option<bool>,
    pub dry: Option<bool>,
    pub iron: Option<bool>,
    pub note: Option<String>,
}

impl BaseModel for LaundryRecordJson {
    open spec fn spec_uuid(&self) -> Option<Seq<char>> {
        opt_chars(self.uuid)
    }

    open spec fn spec_created_at(&self) -> Option<u64> {
        self.created_at
    }

    open spec fn spec_updated_at(&self) -> Option<u64> {
        self.updated_at
    }

    open spec fn spec_deleted_at(&self) -> Option<u64> {
        self.deleted_at
    }

    fn created_at(&self) -> (r: Option<u64>)
        ensures
            r == self.created_at,
    {
        self.created_at
    }

    fn updated_at(&self) -> (r: Option<u64>)
        ensures
            r == self.updated_at,
    {
        self.updated_at
    }

    fn deleted_at(&self) -> (r: Option<u64>)
        ensures
            r == self.deleted_at,
    {
        self.deleted_at
    }

    fn set_created_at(&mut self, created_at: u64)
        ensures
            *final(self) == (LaundryRecordJson { created_at: Some(created_at), ..*old(self) }),
    {
        self.created_at = Some(created_at);
    }

    fn set_updated_at(&mut self, updated_at: u64)
        ensures
            *final(self) == (LaundryRecordJson { updated_at: Some(updated_at), ..*old(self) }),
    {
        self.updated_at = Some(updated_at);
    }

    fn set_deleted_at(&mut self, deleted_at: u64)
        ensures
            *final(self) == (LaundryRecordJson { deleted_at: Some(deleted_at), ..*old(self) }),
    {
        self.deleted_at = Some(deleted_at);
    }

    fn uuid(&self) -> (r: Option<String>)
        ensures
            r == self.uuid,
    {
        copy_opt_string(&self.uuid)
    }

    fn duplicate(&self) -> (r: Self) {
        LaundryRecordJson {
            uuid: copy_opt_string(&self.uuid),
            created_at: self.created_at,
            updated_at: self.updated_at,
            deleted_at: self.deleted_at,
            customer_uuid: copy_opt_string(&self.customer_uuid),
            laundry_document_uuid: copy_opt_string(&self.laundry_document_uuid),
            weight: self.weight,
            price: self.price,
            record_type: self.record_type,
            start: self.start,
            done: self.done,
            received: self.received,
            e_pay_id: self.e_pay_id,
            wash: self.wash,
            dry: self.dry,
            iron: self.iron,
            note: copy_opt_string(&self.note),
        }
    }
}

/// A document (a batch of laundry jobs) of the laundry.
#[derive(Debug)]
pub struct LaundryDocumentJson {
    pub uuid: Option<String>,
    pub created_at: Option<u64>,
    pub updated_at: Option<u64>,
    pub deleted_at: Option<u64>,
    pub name: Option<String>,
    pub date: Option<u64>,
}

impl BaseModel for LaundryDocumentJson {
    open spec fn spec_uuid(&self) -> Option<Seq<char>> {
        opt_chars(self.uuid)
    }

    open spec fn spec_created_at(&self) -> Option<u64> {
        self.created_at
    }

    open spec fn spec_updated_at(&self) -> Option<u64> {
        self.updated_at
    }

    open spec fn spec_deleted_at(&self) -> Option<u64> {
        self.deleted_at
    }

    fn created_at(&self) -> (r: Option<u64>)
        ensures
            r == self.created_at,
    {
        self.created_at
    }

    fn updated_at(&self) -> (r: Option<u64>)
        ensures
            r == self.updated_at,
    {
        self.updated_at
    }

    fn deleted_at(&self) -> (r: Option<u64>)
        ensures
            r == self.deleted_at,
    {
        self.deleted_at
    }

    fn set_created_at(&mut self, created_at: u64)
        ensures
            *final(self) == (LaundryDocumentJson { created_at: Some(created_at), ..*old(self) }),
    {
        self.created_at = Some(created_at);
    }

    fn set_updated_at(&mut self, updated_at: u64)
        ensures
            *final(self) == (LaundryDocumentJson { updated_at: Some(updated_at), ..*old(self) }),
    {
        self.updated_at = Some(updated_at);
    }

    fn set_deleted_at(&mut self, deleted_at: u64)
        ensures
            *final(self) == (LaundryDocumentJson { deleted_at: Some(deleted_at), ..*old(self) }),
    {
        self.deleted_at = Some(deleted_at);
    }

    fn uuid(&self) -> (r: Option<String>)
        ensures
            r == self.uuid,
    {
        copy_opt_string(&self.uuid)
    }

    fn duplicate(&self) -> (r: Self) {
        LaundryDocumentJson {
            uuid: copy_opt_string(&self.uuid),
            created_at: self.created_at,
            updated_at: self.updated_at,
            deleted_at: self.deleted_at,
            name: copy_opt_string(&self.name),
            date: self.date,
        }
    }
}

/// An expense of the laundry. `amount` holds the bit pattern of the amount
/// as an IEEE-754 double, carried through unchanged.
#[derive(Debug)]
pub struct ExpenseJson {
    pub uuid: Option<String>,
    pub created_at: Option<u64>,
    pub updated_at: Option<u64>,
    pub deleted_at: Option<u64>,
    pub date: Option<u64>,
    pub amount: Option<u64>,
}

impl BaseModel for ExpenseJson {
    open spec fn spec_uuid(&self) -> Option<Seq<char>> {
        opt_chars(self.uuid)
    }

    open spec fn spec_created_at(&self) -> Option<u64> {
        self.created_at
    }

    open spec fn spec_updated_at(&self) -> Option<u64> {
        self.updated_at
    }

    open spec fn spec_deleted_at(&self) -> Option<u64> {
        self.deleted_at
    }

    fn created_at(&self) -> (r: Option<u64>)
        ensures
            r == self.created_at,
    {
        self.created_at
    }

    fn updated_at(&self) -> (r: Option<u64>)
        ensures
            r == self.updated_at,
    {
        self.updated_at
    }

    fn deleted_at(&self) -> (r: Option<u64>)
        ensures
            r == self.deleted_at,
    {
        self.deleted_at
    }

    fn set_created_at(&mut self, created_at: u64)
        ensures
            *final(self) == (ExpenseJson { created_at: Some(created_at), ..*old(self) }),
    {
        self.created_at = Some(created_at);
    }

    fn set_updated_at(&mut self, updated_at: u64)
        ensures
            *final(self) == (ExpenseJson { updated_at: Some(updated_at), ..*old(self) }),
    {
        self.updated_at = Some(updated_at);
    }

    fn set_deleted_at(&mut self, deleted_at: u64)
        ensures
            *final(self) == (ExpenseJson { deleted_at: Some(deleted_at), ..*old(self) }),
    {
        self.deleted_at = Some(deleted_at);
    }

    fn uuid(&self) -> (r: Option<String>)
        ensures
            r == self.uuid,
    {
        copy_opt_string(&self.uuid)
    }

    fn duplicate(&self) -> (r: Self) {
        ExpenseJson {
            uuid: copy_opt_string(&self.uuid),
            created_at: self.created_at,
            updated_at: self.updated_at,
            deleted_at: self.deleted_at,
            date: self.date,
            amount: self.amount,
        }
    }
}

/// A customer's bookkeeping is its own fields: it is identified by its `uuid`,
/// last changed at its `updated_at`, created at its `created_at`, and deleted
/// exactly when its `deleted_at` is set.
pub proof fn law_customer_bookkeeping(r: CustomerJson)
    ensures
        r.spec_uuid() == opt_chars(r.uuid),
        r.spec_created_at() == r.created_at,
        r.spec_updated_at() == r.updated_at,
        r.spec_deleted_at() == r.deleted_at,
        r.spec_deleted_at() is None <==> r.deleted_at is None,
{
}

/// A laundry record's bookkeeping is its own fields: it is identified by its `uuid`,
/// last changed at its `updated_at`, created at its `created_at`, and deleted
/// exactly when its `deleted_at` is set.
pub proof fn law_laundry_record_bookkeeping(r: LaundryRecordJson)
    ensures
        r.spec_uuid() == opt_chars(r.uuid),
        r.spec_created_at() == r.created_at,
        r.spec_updated_at() == r.updated_at,
        r.spec_deleted_at() == r.deleted_at,
        r.spec_deleted_at() is None <==> r.deleted_at is None,
{
}

/// A laundry document's bookkeeping is its own fields: it is identified by its `uuid`,
/// last changed at its `updated_at`, created at its `created_at`, and deleted
/// exactly when its `deleted_at` is set.
pub proof fn law_laundry_document_bookkeeping(r: LaundryDocumentJson)
    ensures
        r.spec_uuid() == opt_chars(r.uuid),
        r.spec_created_at() == r.created_at,
        r.spec_updated_at() == r.updated_at,
        r.spec_deleted_at() == r.deleted_at,
        r.spec_deleted_at() is None <==> r.deleted_at is None,
{
}

/// A expense's bookkeeping is its own fields: it is identified by its `uuid`,
/// last changed at its `updated_at`, created at its `created_at`, and deleted
/// exactly when its `deleted_at` is set.
pub proof fn law_expense_bookkeeping(r: ExpenseJson)
    ensures
        r.spec_uuid() == opt_chars(r.uuid),
        r.spec_created_at() == r.created_at,
        r.spec_updated_at() == r.updated_at,
        r.spec_deleted_at() == r.deleted_at,
        r.spec_deleted_at() is None <==> r.deleted_at is None,
{
}

} // verus!
